use steel_yaml::tokenizer::grammar::{
    classify_directive, document_start_at, line_starts_at, scan_blanks, scan_break, scan_content, scan_line,
    scan_next_line, scan_plain, scan_word, trim_end,
};
use steel_yaml::tokenizer::scanner::read_directive;
use steel_yaml::{
    render_scan, Control, DirectiveKind, Reader, Scanner, SpanToken, State, StrIterator,
    StrReader, YamlError,
};

fn assert_eq_event(input_yaml: &str, expect: &str) {
    let mut event = String::new();
    let mut scan = Scanner::from_str_reader(input_yaml);
    while let Some(x) = scan.next() {
        let line = x.render(input_yaml.as_bytes()).unwrap();
        event.push_str(&format!("\n{}", String::from_utf8(line).unwrap()));
    }
    assert_eq!(expect, event);
}

fn tokens_of(input: &str) -> Vec<SpanToken> {
    Scanner::from_str_reader(input).collect_tokens()
}

fn rendered(input: &str) -> String {
    String::from_utf8(render_scan(input)).unwrap()
}

#[test]
fn parse_empty_document() {
    let input_yaml = r#"
# test"
  # test
%YAML 1.3 #arst
"#;
    let expect = r#"
+STR
#YAML 1.3
ERR
-STR"#;
    assert_eq_event(input_yaml, expect);
}

#[test]
fn parse_flow_scalars() {
    let null_yaml = r#"
null  #comment
"#;
    let expected = r#"
+STR
+VAL null
-STR"#;
    assert_eq_event(null_yaml, expected)
}

#[test]
fn directive_without_marker_after_leading_comment() {
    assert_eq!(rendered("# test\n%YAML 1.3\n"), "+STR\n#YAML 1.3\nERR\n-STR");
    assert_eq!(
        tokens_of("# test\n%YAML 1.3\n"),
        vec![
            SpanToken::StreamStart,
            SpanToken::Directive(DirectiveKind::Version, 13, 16),
            SpanToken::Error(YamlError::MissingDocumentMarker, 17),
            SpanToken::StreamEnd,
        ]
    );
}

#[test]
fn bare_scalar_with_trailing_comment() {
    assert_eq!(rendered("null  #comment\n"), "+STR\n+VAL null\n-STR");
    assert_eq!(
        tokens_of("null  #comment\n"),
        vec![SpanToken::StreamStart, SpanToken::Scalar(0, 4), SpanToken::StreamEnd]
    );
}

#[test]
fn empty_input_has_no_content() {
    assert_eq!(rendered(""), "+STR\n-STR");
    assert_eq!(tokens_of(""), vec![SpanToken::StreamStart, SpanToken::StreamEnd]);
}

#[test]
fn blank_and_comment_only_input_has_no_content() {
    assert_eq!(rendered("  \t\n# one\n\r\n   # two"), "+STR\n-STR");
}

#[test]
fn directive_with_marker_then_content() {
    let input = "%YAML 1.2\n---\nfoo: bar\n";
    assert_eq!(
        tokens_of(input),
        vec![
            SpanToken::StreamStart,
            SpanToken::Directive(DirectiveKind::Version, 6, 9),
            SpanToken::Scalar(14, 17),
            SpanToken::Scalar(19, 22),
            SpanToken::StreamEnd,
        ]
    );
    assert_eq!(rendered(input), "+STR\n#YAML 1.2\n+VAL foo\n+VAL bar\n-STR");
}

#[test]
fn tag_directive_keeps_its_parameters() {
    let input = "%TAG ! tag:example.com,2000:\n---\n";
    assert_eq!(
        tokens_of(input),
        vec![
            SpanToken::StreamStart,
            SpanToken::Directive(DirectiveKind::Tag, 5, 28),
            SpanToken::StreamEnd,
        ]
    );
    assert_eq!(rendered(input), "+STR\n#TAG ! tag:example.com,2000:\n-STR");
}

#[test]
fn unknown_directive_is_reserved() {
    let input = "%FOO bar\n";
    assert_eq!(
        tokens_of(input),
        vec![
            SpanToken::StreamStart,
            SpanToken::Directive(DirectiveKind::Reserved, 5, 8),
            SpanToken::Error(YamlError::MissingDocumentMarker, 9),
            SpanToken::StreamEnd,
        ]
    );
    assert_eq!(rendered(input), "+STR\n#DIR bar\nERR\n-STR");
}

#[test]
fn directive_without_parameters_has_an_empty_range() {
    assert_eq!(
        tokens_of("%YAML"),
        vec![
            SpanToken::StreamStart,
            SpanToken::Directive(DirectiveKind::Version, 5, 5),
            SpanToken::Error(YamlError::MissingDocumentMarker, 5),
            SpanToken::StreamEnd,
        ]
    );
}

#[test]
fn directive_followed_by_content_is_an_error() {
    let input = "%YAML 1.2\n\n# note\nvalue\n";
    assert_eq!(
        tokens_of(input),
        vec![
            SpanToken::StreamStart,
            SpanToken::Directive(DirectiveKind::Version, 6, 9),
            SpanToken::Error(YamlError::MissingDocumentMarker, 18),
            SpanToken::StreamEnd,
        ]
    );
}

#[test]
fn marker_must_stand_alone() {
    let input = "%YAML 1.2\n---x\n";
    assert_eq!(
        tokens_of(input),
        vec![
            SpanToken::StreamStart,
            SpanToken::Directive(DirectiveKind::Version, 6, 9),
            SpanToken::Error(YamlError::MissingDocumentMarker, 10),
            SpanToken::StreamEnd,
        ]
    );
}

#[test]
fn marker_at_end_of_input() {
    assert_eq!(
        tokens_of("%YAML 1.2\n---"),
        vec![
            SpanToken::StreamStart,
            SpanToken::Directive(DirectiveKind::Version, 6, 9),
            SpanToken::StreamEnd,
        ]
    );
}

#[test]
fn scalars_stop_at_indicators() {
    let input = "[a, b c ]";
    assert_eq!(
        tokens_of(input),
        vec![
            SpanToken::StreamStart,
            SpanToken::Scalar(1, 2),
            SpanToken::Scalar(4, 7),
            SpanToken::StreamEnd,
        ]
    );
    assert_eq!(rendered(input), "+STR\n+VAL a\n+VAL b c\n-STR");
}

#[test]
fn hash_inside_a_word_is_no_comment() {
    assert_eq!(
        tokens_of("a#b  # c"),
        vec![SpanToken::StreamStart, SpanToken::Scalar(0, 3), SpanToken::StreamEnd]
    );
}

#[test]
fn carriage_returns_end_lines() {
    let input = "one\r\ntwo\rthree";
    assert_eq!(
        tokens_of(input),
        vec![
            SpanToken::StreamStart,
            SpanToken::Scalar(0, 3),
            SpanToken::Scalar(5, 8),
            SpanToken::Scalar(9, 14),
            SpanToken::StreamEnd,
        ]
    );
}

#[test]
fn scalar_without_final_newline() {
    assert_eq!(
        tokens_of("  plain text  "),
        vec![SpanToken::StreamStart, SpanToken::Scalar(2, 12), SpanToken::StreamEnd]
    );
}

#[test]
fn stream_is_delimited_once() {
    for input in ["", "a", "%YAML 1.1\n", "%YAML 1.1\n---\na: b\n", "# x\n\n[1,2]\n"] {
        let tokens = tokens_of(input);
        assert!(tokens.len() >= 2);
        assert_eq!(tokens[0], SpanToken::StreamStart);
        assert_eq!(tokens[tokens.len() - 1], SpanToken::StreamEnd);
        let starts = tokens.iter().filter(|t| **t == SpanToken::StreamStart).count();
        let ends = tokens.iter().filter(|t| **t == SpanToken::StreamEnd).count();
        assert_eq!(starts, 1);
        assert_eq!(ends, 1);
    }
}

#[test]
fn spans_are_in_bounds_and_ordered() {
    let input = "%TAG !e! tag:e.com:  # c\n---  \nkey: [one, two]  # end\nlast";
    let tokens = tokens_of(input);
    let mut previous_end = 0usize;
    let mut seen = 0;
    for token in tokens {
        let span = match token {
            SpanToken::Scalar(a, e) => Some((a, e)),
            SpanToken::Directive(_, a, e) => Some((a, e)),
            SpanToken::Error(_, at) => Some((at, at)),
            _ => None,
        };
        if let Some((a, e)) = span {
            assert!(a <= e);
            assert!(e <= input.len());
            assert!(a >= previous_end);
            previous_end = e;
            seen += 1;
        }
    }
    assert_eq!(seen, 5);
}

#[test]
fn scanning_twice_gives_the_same_tokens() {
    let input = "%YAML 1.2\n---\nfoo: bar # baz\n";
    assert_eq!(tokens_of(input), tokens_of(input));
    assert_eq!(render_scan(input), render_scan(input));
}

#[test]
fn only_stream_end_follows_an_error() {
    let tokens = tokens_of("%YAML 1.2\nfoo\nbar\n");
    let at = tokens.iter().position(|t| matches!(t, SpanToken::Error(..))).unwrap();
    assert_eq!(at + 2, tokens.len());
    assert_eq!(tokens[at + 1], SpanToken::StreamEnd);
}

#[test]
fn next_is_lazy_and_ends_with_none() {
    let mut it = Scanner::from_str_reader("a: b");
    assert_eq!(it.next(), Some(SpanToken::StreamStart));
    assert_eq!(it.next(), Some(SpanToken::Scalar(0, 1)));
    assert_eq!(it.next(), Some(SpanToken::Scalar(3, 4)));
    assert_eq!(it.next(), Some(SpanToken::StreamEnd));
    assert_eq!(it.next(), None);
    assert_eq!(it.next(), None);
    assert_eq!(it.collect_tokens(), vec![]);
}

#[test]
fn transitions_report_control() {
    let mut scanner = Scanner::default();
    let mut reader = StrReader::new("%YAML 1.3\n");
    assert_eq!(scanner.state(), State::StreamStart);
    assert_eq!(scanner.next_state(&mut reader), Control::Continue);
    assert_eq!(scanner.state(), State::DirectiveOrDocument);
    assert_eq!(
        scanner.next_state(&mut reader),
        Control::Error(YamlError::MissingDocumentMarker)
    );
    assert_eq!(scanner.state(), State::Error);
    assert_eq!(reader.pos(), 10);
    assert_eq!(scanner.next_state(&mut reader), Control::Continue);
    assert_eq!(scanner.state(), State::StreamEnd);
    assert!(!scanner.is_eof());
    assert_eq!(scanner.next_state(&mut reader), Control::Eof);
    assert!(!scanner.is_eof());
    assert_eq!(scanner.state(), State::StreamEnd);
    assert_eq!(reader.pos(), 10);
    assert_eq!(scanner.next_state(&mut reader), Control::Eof);
    assert!(!scanner.is_eof());
    assert_eq!(scanner.pop_token(), Some(SpanToken::StreamStart));
    assert_eq!(
        scanner.pop_token(),
        Some(SpanToken::Directive(DirectiveKind::Version, 6, 9))
    );
    assert_eq!(
        scanner.pop_token(),
        Some(SpanToken::Error(YamlError::MissingDocumentMarker, 10))
    );
    assert_eq!(scanner.pop_token(), Some(SpanToken::StreamEnd));
    assert_eq!(scanner.pop_token(), None);
}

#[test]
fn content_transition_without_directive_emits_nothing() {
    let mut scanner = Scanner::default();
    let mut reader = StrReader::new("\n  x");
    scanner.read_start_stream(&mut reader);
    assert_eq!(reader.pos(), 0);
    assert_eq!(scanner.read_directive_or_document(&mut reader), Control::Continue);
    assert_eq!(scanner.state(), State::DocumentContent);
    assert_eq!(reader.pos(), 3);
    assert_eq!(scanner.pop_token(), Some(SpanToken::StreamStart));
    assert_eq!(scanner.pop_token(), None);
    scanner.read_document_content(&mut reader);
    assert_eq!(scanner.pop_token(), Some(SpanToken::Scalar(3, 4)));
    scanner.read_document_content(&mut reader);
    assert_eq!(scanner.state(), State::StreamEnd);
    assert_eq!(scanner.pop_token(), Some(SpanToken::StreamEnd));
}

#[test]
fn queue_is_first_in_first_out() {
    let mut scanner = Scanner::default();
    let mut reader = StrReader::new("");
    scanner.emit_end_of_stream();
    scanner.read_start_stream(&mut reader);
    assert_eq!(scanner.pop_token(), Some(SpanToken::StreamEnd));
    assert_eq!(scanner.pop_token(), Some(SpanToken::StreamStart));
    assert_eq!(scanner.pop_token(), None);
}

#[test]
fn preamble_skips_blanks_and_one_comment_line() {
    let scanner = Scanner::default();
    let mut reader = StrReader::new("  \t# first\n# second\n");
    scanner.try_read_comments(&mut reader);
    assert_eq!(reader.pos(), 11);
    let mut reader = StrReader::new("   x");
    scanner.try_read_comments(&mut reader);
    assert_eq!(reader.pos(), 3);
}

#[test]
fn default_state_is_stream_start() {
    assert_eq!(State::default(), State::StreamStart);
    let scanner = Scanner::default();
    assert_eq!(scanner.state(), State::StreamStart);
    assert!(!scanner.is_eof());
}

#[test]
fn cursor_peeks_and_advances() {
    let mut reader = StrReader::new("ab");
    assert_eq!(reader.pos(), 0);
    assert!(!reader.eof());
    assert_eq!(reader.peek_byte(), Some(b'a'));
    assert!(reader.peek_byte_is(b'a'));
    assert!(!reader.peek_byte_is(b'b'));
    reader.advance();
    assert_eq!(reader.peek_byte(), Some(b'b'));
    reader.advance();
    assert!(reader.eof());
    assert_eq!(reader.peek_byte(), None);
    assert!(!reader.peek_byte_is(b'b'));
    reader.advance();
    assert_eq!(reader.pos(), 2);
    assert_eq!(reader.bytes(), &b"ab"[..]);
}

#[test]
fn cursor_consumes_bytes_up_to_the_end() {
    let mut reader = StrReader::from_bytes(b"abcdef");
    reader.consume_bytes(4);
    assert_eq!(reader.pos(), 4);
    reader.consume_bytes(4);
    assert_eq!(reader.pos(), 6);
    reader.consume_bytes(usize::MAX);
    assert_eq!(reader.pos(), 6);
}

#[test]
fn cursor_skips_spaces_and_tabs() {
    let mut reader = StrReader::new(" \t  x ");
    assert_eq!(reader.skip_space_tab(), 4);
    assert_eq!(reader.pos(), 4);
    assert_eq!(reader.skip_space_tab(), 0);
    assert_eq!(reader.pos(), 4);
}

#[test]
fn cursor_reads_lines() {
    let mut reader = StrReader::new("one\ntwo\r\n\rlast");
    assert_eq!(reader.read_line(), (0, 3));
    assert_eq!(reader.pos(), 4);
    assert_eq!(reader.read_line(), (4, 7));
    assert_eq!(reader.pos(), 9);
    assert_eq!(reader.read_line(), (9, 9));
    assert_eq!(reader.pos(), 10);
    assert_eq!(reader.read_line(), (10, 14));
    assert_eq!(reader.pos(), 14);
    assert_eq!(reader.read_line(), (14, 14));
    assert!(reader.eof());
}

#[test]
fn cursor_reads_plain_text() {
    let mut reader = StrReader::new("a b  : c");
    assert_eq!(reader.read_plain(true), (0, 3));
    assert_eq!(reader.pos(), 5);
    let mut reader = StrReader::new("a b  : c  #d");
    assert_eq!(reader.read_plain(false), (0, 8));
    assert_eq!(reader.pos(), 10);
}

#[test]
fn cursor_skips_to_content() {
    let mut reader = StrReader::new(" # c\n\n  : x");
    reader.skip_to_content(false);
    assert_eq!(reader.pos(), 8);
    reader.skip_to_content(true);
    assert_eq!(reader.pos(), 10);
}

#[test]
fn tokens_render_one_line_each() {
    let input = b"%YAML 1.3\nnull";
    let line = |t: SpanToken| t.render(input).map(|l| String::from_utf8(l).unwrap());
    assert_eq!(line(SpanToken::StreamStart), Some("+STR".to_string()));
    assert_eq!(line(SpanToken::StreamEnd), Some("-STR".to_string()));
    assert_eq!(
        line(SpanToken::Error(YamlError::MissingDocumentMarker, 99)),
        Some("ERR".to_string())
    );
    assert_eq!(line(SpanToken::Scalar(10, 14)), Some("+VAL null".to_string()));
    assert_eq!(line(SpanToken::Scalar(10, 10)), Some("+VAL ".to_string()));
    assert_eq!(
        line(SpanToken::Directive(DirectiveKind::Version, 6, 9)),
        Some("#YAML 1.3".to_string())
    );
    assert_eq!(
        line(SpanToken::Directive(DirectiveKind::Tag, 6, 9)),
        Some("#TAG 1.3".to_string())
    );
    assert_eq!(line(SpanToken::Scalar(10, 15)), None);
    assert_eq!(line(SpanToken::Scalar(5, 4)), None);
    assert_eq!(line(SpanToken::Directive(DirectiveKind::Reserved, 15, 15)), None);
}

#[test]
fn iterator_can_be_built_from_parts() {
    let mut it = StrIterator::new(Scanner::default(), StrReader::new("x"));
    assert_eq!(
        it.collect_tokens(),
        vec![SpanToken::StreamStart, SpanToken::Scalar(0, 1), SpanToken::StreamEnd]
    );
}

#[test]
fn cursor_skips_while_a_predicate_holds() {
    let mut reader = StrReader::new("aaab");
    assert_eq!(reader.skip_while(|b| b == b'a'), 3);
    assert_eq!(reader.pos(), 3);
    assert_eq!(reader.skip_while(|b| b == b'a'), 0);
    assert_eq!(reader.skip_while(|_| true), 1);
    assert!(reader.eof());
    assert_eq!(reader.skip_while(|_| true), 0);
}

#[test]
fn directive_line_is_read_into_its_token() {
    let line = b"%YAML  1.3\t #arst";
    assert_eq!(
        read_directive(line, 1),
        SpanToken::Directive(DirectiveKind::Version, 7, 10)
    );
    assert_eq!(
        read_directive(b"%\n", 1),
        SpanToken::Directive(DirectiveKind::Reserved, 1, 1)
    );
    assert_eq!(
        read_directive(b"%TAG", 4),
        SpanToken::Directive(DirectiveKind::Reserved, 4, 4)
    );
}

#[test]
fn grammar_scanners_find_their_ends() {
    let s = b" \tab c\r\n# x\n--- y";
    assert_eq!(scan_blanks(s, 0), 2);
    assert_eq!(scan_word(s, 2), 4);
    assert_eq!(scan_line(s, 0), 6);
    assert_eq!(scan_break(s, 6), 8);
    assert_eq!(scan_break(s, 0), 0);
    assert_eq!(scan_next_line(s, 0), 8);
    assert_eq!(scan_plain(s, 2, true), 6);
    assert_eq!(trim_end(b"a  ", 0, 3), 1);
    assert_eq!(trim_end(b"   ", 1, 3), 1);
    assert_eq!(scan_content(s, 6, false), 12);
    assert!(document_start_at(s, 12));
    assert!(!document_start_at(s, 13));
    assert!(!document_start_at(b"--", 0));
    assert!(!document_start_at(b"----", 0));
    assert!(document_start_at(b"---\n", 0));
    assert_eq!(classify_directive(b"%YAML", 1, 5), DirectiveKind::Version);
    assert_eq!(classify_directive(b"%TAG", 1, 4), DirectiveKind::Tag);
    assert_eq!(classify_directive(b"%YAMLS", 1, 6), DirectiveKind::Reserved);
    assert_eq!(classify_directive(b"%yaml", 1, 5), DirectiveKind::Reserved);
}

#[test]
fn indented_percent_is_content() {
    assert_eq!(
        tokens_of("  %YAML 1.2\n"),
        vec![SpanToken::StreamStart, SpanToken::Scalar(2, 11), SpanToken::StreamEnd]
    );
    assert_eq!(
        tokens_of("\n \t%TAG\n"),
        vec![SpanToken::StreamStart, SpanToken::Scalar(3, 7), SpanToken::StreamEnd]
    );
}

#[test]
fn indented_marker_is_no_marker() {
    assert_eq!(
        tokens_of("%YAML 1.2\n  ---\n"),
        vec![
            SpanToken::StreamStart,
            SpanToken::Directive(DirectiveKind::Version, 6, 9),
            SpanToken::Error(YamlError::MissingDocumentMarker, 12),
            SpanToken::StreamEnd,
        ]
    );
}

#[test]
fn marker_without_directive_is_content() {
    assert_eq!(
        tokens_of("---\nx"),
        vec![
            SpanToken::StreamStart,
            SpanToken::Scalar(0, 3),
            SpanToken::Scalar(4, 5),
            SpanToken::StreamEnd,
        ]
    );
}

#[test]
fn lines_start_after_breaks() {
    let s = b"a\nb\rc";
    assert!(line_starts_at(s, 0));
    assert!(!line_starts_at(s, 1));
    assert!(line_starts_at(s, 2));
    assert!(!line_starts_at(s, 3));
    assert!(line_starts_at(s, 4));
    assert!(!line_starts_at(s, 5));
}

#[test]
fn marker_after_directive_and_comments() {
    let input = "%YAML 1.2 # v\n\n  # note\n--- \nx\n";
    assert_eq!(
        tokens_of(input),
        vec![
            SpanToken::StreamStart,
            SpanToken::Directive(DirectiveKind::Version, 6, 9),
            SpanToken::Scalar(29, 30),
            SpanToken::StreamEnd,
        ]
    );
}

#[test]
fn rendering_is_framed_by_the_stream_lines() {
    for input in ["", "x", "%YAML 1.1\n", "%TAG a b\n---\n[1]", "\n\n# only\n", "a: b\r\nc"] {
        let text = rendered(input);
        assert!(text.starts_with("+STR"));
        assert!(text.ends_with("-STR"));
        let lines: Vec<&str> = text.split('\n').collect();
        assert_eq!(lines.iter().filter(|l| **l == "+STR").count(), 1);
        assert_eq!(lines.iter().filter(|l| **l == "-STR").count(), 1);
    }
}

#[test]
fn every_transition_emits_or_changes_state() {
    for input in ["", "  # c\n", "%YAML 1.1\n---\n", "a b\n", ": ,"] {
        let mut scanner = Scanner::default();
        let mut reader = StrReader::new(input);
        let mut steps = 0;
        loop {
            let before = scanner.state();
            let mut queued = 0;
            while scanner.pop_token().is_some() {
                queued += 1;
            }
            assert_eq!(queued, 0);
            if scanner.next_state(&mut reader) == Control::Eof {
                break;
            }
            let mut emitted = 0;
            while scanner.pop_token().is_some() {
                emitted += 1;
            }
            assert!(emitted > 0 || scanner.state() != before);
            steps += 1;
            assert!(steps <= input.len() + 4);
        }
        assert_eq!(scanner.state(), State::StreamEnd);
    }
}

#[test]
fn terminal_state_changes_nothing() {
    let mut scanner = Scanner::default();
    let mut reader = StrReader::new("");
    assert_eq!(scanner.next_state(&mut reader), Control::Continue);
    assert_eq!(scanner.next_state(&mut reader), Control::Continue);
    assert_eq!(scanner.next_state(&mut reader), Control::Continue);
    assert_eq!(scanner.state(), State::StreamEnd);
    assert!(!scanner.is_eof());
    assert_eq!(scanner.next_state(&mut reader), Control::Eof);
    assert!(!scanner.is_eof());
    assert_eq!(scanner.state(), State::StreamEnd);
    assert_eq!(reader.pos(), 0);
    assert_eq!(scanner.pop_token(), Some(SpanToken::StreamStart));
    assert_eq!(scanner.pop_token(), Some(SpanToken::StreamEnd));
    assert_eq!(scanner.pop_token(), None);
}

#[test]
fn transitions_keep_the_end_flag() {
    let mut scanner = Scanner::default();
    let mut reader = StrReader::new("%YAML 1.1\nx");
    scanner.set_eof(true);
    assert_eq!(scanner.next_state(&mut reader), Control::Continue);
    assert!(scanner.is_eof());
    assert_eq!(
        scanner.next_state(&mut reader),
        Control::Error(YamlError::MissingDocumentMarker)
    );
    assert!(scanner.is_eof());
    assert_eq!(scanner.next_state(&mut reader), Control::Continue);
    assert_eq!(scanner.next_state(&mut reader), Control::Eof);
    assert!(scanner.is_eof());
    scanner.set_eof(false);
    assert!(!scanner.is_eof());
    assert_eq!(scanner.state(), State::StreamEnd);
    assert_eq!(scanner.pop_token(), Some(SpanToken::StreamStart));
}

#[test]
fn transitions_may_follow_a_finished_scan() {
    let mut scanner = Scanner::default();
    let mut reader = StrReader::new("a");
    while scanner.next_state(&mut reader) != Control::Eof {}
    scanner.set_eof(true);
    scanner.read_start_stream(&mut reader);
    assert_eq!(scanner.state(), State::DirectiveOrDocument);
    assert!(scanner.is_eof());
    assert_eq!(scanner.next_state(&mut reader), Control::Continue);
    assert_eq!(scanner.state(), State::DocumentContent);
}

#[test]
fn nothing_is_read_before_the_first_pull() {
    let it = Scanner::from_str_reader("  # c\nx");
    assert_eq!(it.state(), State::StreamStart);
    assert_eq!(it.pos(), 0);
    assert!(!it.is_eof());
    let it = StrIterator::new(Scanner::default(), StrReader::new("abc"));
    assert_eq!(it.state(), State::StreamStart);
    assert_eq!(it.pos(), 0);
}

#[test]
fn each_pull_reads_no_further_than_it_must() {
    let mut it = Scanner::from_str_reader("  # c\n%YAML 1.1\nx y\n");
    assert_eq!(it.next(), Some(SpanToken::StreamStart));
    assert_eq!(it.state(), State::DirectiveOrDocument);
    assert_eq!(it.pos(), 6);
    assert_eq!(it.next(), Some(SpanToken::Directive(DirectiveKind::Version, 12, 15)));
    assert_eq!(it.state(), State::Error);
    assert_eq!(it.pos(), 16);
    assert_eq!(it.next(), Some(SpanToken::Error(YamlError::MissingDocumentMarker, 16)));
    assert_eq!(it.state(), State::Error);
    assert_eq!(it.pos(), 16);
    assert!(!it.is_eof());
    assert_eq!(it.next(), Some(SpanToken::StreamEnd));
    assert_eq!(it.state(), State::StreamEnd);
    assert!(!it.is_eof());
    assert_eq!(it.next(), None);
    assert!(it.is_eof());
    assert_eq!(it.pos(), 16);
    assert_eq!(it.next(), None);
    assert!(it.is_eof());
}

#[test]
fn a_pull_runs_silent_transitions_until_a_token_comes() {
    let mut it = Scanner::from_str_reader("\n  a b  \nc");
    assert_eq!(it.next(), Some(SpanToken::StreamStart));
    assert_eq!(it.pos(), 0);
    assert_eq!(it.next(), Some(SpanToken::Scalar(3, 6)));
    assert_eq!(it.state(), State::DocumentContent);
    assert_eq!(it.pos(), 8);
    assert_eq!(it.next(), Some(SpanToken::Scalar(9, 10)));
    assert_eq!(it.pos(), 10);
    assert_eq!(it.next(), Some(SpanToken::StreamEnd));
    assert_eq!(it.next(), None);
}

#[test]
fn a_recorded_end_stops_the_driver() {
    let mut scanner = Scanner::default();
    scanner.emit_end_of_stream();
    scanner.set_eof(true);
    let mut it = StrIterator::new(scanner, StrReader::new("never read"));
    assert_eq!(it.next(), Some(SpanToken::StreamEnd));
    assert_eq!(it.next(), None);
    assert_eq!(it.pos(), 0);
    assert_eq!(it.state(), State::StreamStart);
}
