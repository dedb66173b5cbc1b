use bracket_scan::lexer::bracket::{
    bracket_lexer, classify, scan_step, BracketFamily, BracketKind, BracketToken, ScanMode,
    ScanStep,
};
use bracket_scan::utils::char_position::CharPosition;

fn kinds(tokens: &[BracketToken]) -> Vec<BracketKind> {
    tokens.iter().map(|t| t.kind).collect()
}

fn offsets(tokens: &[BracketToken]) -> Vec<usize> {
    tokens.iter().map(|t| t.position.offset).collect()
}

#[test]
fn every_delimiter_of_a_plain_text_is_a_token() {
    let tokens = bracket_lexer("f(a[1], {b})");
    assert_eq!(
        kinds(&tokens),
        vec![
            BracketKind::ParenOpen,
            BracketKind::BracketOpen,
            BracketKind::BracketClose,
            BracketKind::BraceOpen,
            BracketKind::BraceClose,
            BracketKind::ParenClose,
        ]
    );
    assert_eq!(offsets(&tokens), vec![1, 3, 5, 8, 10, 11]);
}

#[test]
fn empty_text_has_no_token() {
    assert!(bracket_lexer("").is_empty());
}

#[test]
fn text_without_delimiters_has_no_token() {
    assert!(bracket_lexer("let x = 1 + 2;\n").is_empty());
}

#[test]
fn string_with_escaped_quotes_gives_no_token() {
    let tokens = bracket_lexer("\"a\\\"(b\\\")c\"");
    assert!(tokens.is_empty());
}

#[test]
fn scanning_goes_on_after_a_string() {
    let tokens = bracket_lexer("\"(\" )");
    assert_eq!(kinds(&tokens), vec![BracketKind::ParenClose]);
    assert_eq!(offsets(&tokens), vec![4]);
}

#[test]
fn escaped_backslash_does_not_escape_the_quote() {
    // the string is "\\" and ends at its second quote
    let tokens = bracket_lexer("\"\\\\\" (");
    assert_eq!(kinds(&tokens), vec![BracketKind::ParenOpen]);
    assert_eq!(offsets(&tokens), vec![5]);
}

#[test]
fn backslash_outside_a_string_means_nothing() {
    // the backslash does not escape the quote: the string starts there
    let tokens = bracket_lexer("\\\"(\" [");
    assert_eq!(kinds(&tokens), vec![BracketKind::BracketOpen]);
    let tokens = bracket_lexer("\\(");
    assert_eq!(kinds(&tokens), vec![BracketKind::ParenOpen]);
}

#[test]
fn unterminated_string_suppresses_the_rest() {
    let tokens = bracket_lexer("( \"abc ) ] }\n(");
    assert_eq!(kinds(&tokens), vec![BracketKind::ParenOpen]);
}

#[test]
fn string_that_ends_in_a_backslash_suppresses_the_rest() {
    let tokens = bracket_lexer("[ \"abc\\");
    assert_eq!(kinds(&tokens), vec![BracketKind::BracketOpen]);
}

#[test]
fn line_comment_suppresses_up_to_the_line_feed() {
    let tokens = bracket_lexer("// (\n[");
    assert_eq!(kinds(&tokens), vec![BracketKind::BracketOpen]);
    assert_eq!(tokens[0].position, CharPosition { line: 1, ch: 0, offset: 5 });
}

#[test]
fn line_comment_without_line_feed_suppresses_the_rest() {
    let tokens = bracket_lexer("{ // ( [ }");
    assert_eq!(kinds(&tokens), vec![BracketKind::BraceOpen]);
}

#[test]
fn lone_slash_is_an_ordinary_character() {
    let tokens = bracket_lexer("a / (b)");
    assert_eq!(kinds(&tokens), vec![BracketKind::ParenOpen, BracketKind::ParenClose]);
    let tokens = bracket_lexer("(/)");
    assert_eq!(kinds(&tokens), vec![BracketKind::ParenOpen, BracketKind::ParenClose]);
    let tokens = bracket_lexer("(/");
    assert_eq!(kinds(&tokens), vec![BracketKind::ParenOpen]);
}

#[test]
fn block_comment_suppresses_until_it_is_closed() {
    let tokens = bracket_lexer("/* ( */ [");
    assert_eq!(kinds(&tokens), vec![BracketKind::BracketOpen]);
    assert_eq!(offsets(&tokens), vec![8]);
}

#[test]
fn nested_block_comment_suppresses_until_both_are_closed() {
    let tokens = bracket_lexer("/* ( /* [ */ ) */");
    assert!(tokens.is_empty());
    let tokens = bracket_lexer("/* ( /* [ */ ) */ {");
    assert_eq!(kinds(&tokens), vec![BracketKind::BraceOpen]);
    assert_eq!(offsets(&tokens), vec![18]);
}

#[test]
fn nested_block_comment_needs_two_closers() {
    let tokens = bracket_lexer("/* /* */ ( */ )");
    assert_eq!(kinds(&tokens), vec![BracketKind::ParenClose]);
}

#[test]
fn unterminated_block_comment_suppresses_the_rest() {
    let tokens = bracket_lexer("( /* ) ] \n }");
    assert_eq!(kinds(&tokens), vec![BracketKind::ParenOpen]);
}

#[test]
fn closer_of_a_comment_outside_a_comment_means_nothing() {
    let tokens = bracket_lexer("*/ (");
    assert_eq!(kinds(&tokens), vec![BracketKind::ParenOpen]);
}

#[test]
fn slash_star_slash_opens_and_does_not_close() {
    // the star belongs to the opener and cannot close with the slash after it
    let tokens = bracket_lexer("/*/ ( */ )");
    assert_eq!(kinds(&tokens), vec![BracketKind::ParenClose]);
}

#[test]
fn comment_openers_inside_a_string_mean_nothing() {
    let tokens = bracket_lexer("\"//\" ( \"/*\" )");
    assert_eq!(kinds(&tokens), vec![BracketKind::ParenOpen, BracketKind::ParenClose]);
}

#[test]
fn quote_inside_a_line_comment_starts_no_string() {
    let tokens = bracket_lexer("// \"\n(");
    assert_eq!(kinds(&tokens), vec![BracketKind::ParenOpen]);
}

#[test]
fn quote_inside_a_block_comment_starts_no_string() {
    let tokens = bracket_lexer("/* \" */ (");
    assert_eq!(kinds(&tokens), vec![BracketKind::ParenOpen]);
}

#[test]
fn line_comment_opener_inside_a_block_comment_means_nothing() {
    let tokens = bracket_lexer("/* // */ (\n)");
    assert_eq!(kinds(&tokens), vec![BracketKind::ParenOpen, BracketKind::ParenClose]);
}

#[test]
fn tokens_carry_line_and_column() {
    let tokens = bracket_lexer("ab(\n  [\n}");
    assert_eq!(
        tokens,
        vec![
            BracketToken {
                kind: BracketKind::ParenOpen,
                position: CharPosition { line: 0, ch: 2, offset: 2 },
            },
            BracketToken {
                kind: BracketKind::BracketOpen,
                position: CharPosition { line: 1, ch: 2, offset: 6 },
            },
            BracketToken {
                kind: BracketKind::BraceClose,
                position: CharPosition { line: 2, ch: 0, offset: 8 },
            },
        ]
    );
}

#[test]
fn emoji_takes_two_columns() {
    let tokens = bracket_lexer("(🎉)");
    assert_eq!(tokens.len(), 2);
    assert_eq!(tokens[0].position, CharPosition { line: 0, ch: 0, offset: 0 });
    assert_eq!(tokens[1].position, CharPosition { line: 0, ch: 3, offset: 3 });
    assert_eq!(tokens[1].position.ch, tokens[0].position.ch + 1 + 2);
}

#[test]
fn emoji_of_the_basic_plane_takes_two_columns_and_one_unit() {
    // U+2600 is one UTF-16 code unit and three UTF-8 bytes
    let tokens = bracket_lexer("(\u{2600})");
    assert_eq!(tokens[1].position, CharPosition { line: 0, ch: 3, offset: 2 });
}

#[test]
fn character_beyond_the_basic_plane_takes_two_units() {
    // U+10000 is no emoji: two code units, two columns
    let tokens = bracket_lexer("(\u{10000})");
    assert_eq!(tokens[1].position, CharPosition { line: 0, ch: 3, offset: 3 });
}

#[test]
fn character_of_two_bytes_takes_one_column() {
    let tokens = bracket_lexer("é(ü)");
    assert_eq!(offsets(&tokens), vec![1, 3]);
    assert_eq!(tokens[1].position.ch, 3);
}

#[test]
fn token_after_multibyte_text_in_a_comment() {
    let tokens = bracket_lexer("/* 日本語 */(");
    assert_eq!(tokens.len(), 1);
    assert_eq!(tokens[0].position, CharPosition { line: 0, ch: 9, offset: 9 });
}

#[test]
fn classify_knows_the_six_delimiters() {
    assert_eq!(classify('('), Some(BracketKind::ParenOpen));
    assert_eq!(classify(')'), Some(BracketKind::ParenClose));
    assert_eq!(classify('['), Some(BracketKind::BracketOpen));
    assert_eq!(classify(']'), Some(BracketKind::BracketClose));
    assert_eq!(classify('{'), Some(BracketKind::BraceOpen));
    assert_eq!(classify('}'), Some(BracketKind::BraceClose));
    assert_eq!(classify('<'), None);
    assert_eq!(classify('a'), None);
}

#[test]
fn kinds_know_their_family() {
    assert!(BracketKind::ParenOpen.is_open());
    assert!(BracketKind::BracketOpen.is_open());
    assert!(BracketKind::BraceOpen.is_open());
    assert!(!BracketKind::ParenClose.is_open());
    assert!(!BracketKind::BracketClose.is_open());
    assert!(!BracketKind::BraceClose.is_open());
    assert_eq!(BracketKind::ParenClose.family(), BracketFamily::Paren);
    assert_eq!(BracketKind::BracketOpen.family(), BracketFamily::Bracket);
    assert_eq!(BracketKind::BraceClose.family(), BracketFamily::Brace);
    assert_eq!(BracketKind::ParenClose.opener(), BracketKind::ParenOpen);
    assert_eq!(BracketKind::BracketClose.opener(), BracketKind::BracketOpen);
    assert_eq!(BracketKind::BraceClose.opener(), BracketKind::BraceOpen);
    assert_eq!(BracketKind::BraceOpen.opener(), BracketKind::BraceOpen);
}

#[test]
fn token_is_open_follows_its_kind() {
    let position = CharPosition { line: 0, ch: 0, offset: 0 };
    assert!(BracketToken { kind: BracketKind::BraceOpen, position }.is_open());
    assert!(!BracketToken { kind: BracketKind::BraceClose, position }.is_open());
}

#[test]
fn step_in_neutral_mode() {
    assert_eq!(
        scan_step(ScanMode::Neutral, '(', None),
        ScanStep { mode: ScanMode::Neutral, pair: false, emit: Some(BracketKind::ParenOpen) }
    );
    assert_eq!(
        scan_step(ScanMode::Neutral, '/', Some('/')),
        ScanStep { mode: ScanMode::LineComment, pair: true, emit: None }
    );
    assert_eq!(
        scan_step(ScanMode::Neutral, '/', Some('*')),
        ScanStep { mode: ScanMode::BlockComment { depth: 1 }, pair: true, emit: None }
    );
    assert_eq!(
        scan_step(ScanMode::Neutral, '/', Some('(')),
        ScanStep { mode: ScanMode::Neutral, pair: false, emit: None }
    );
    assert_eq!(
        scan_step(ScanMode::Neutral, '"', Some('(')),
        ScanStep { mode: ScanMode::InString { escaped: false }, pair: false, emit: None }
    );
}

#[test]
fn step_in_a_string() {
    let plain = ScanMode::InString { escaped: false };
    let escaped = ScanMode::InString { escaped: true };
    assert_eq!(scan_step(plain, '(', None), ScanStep { mode: plain, pair: false, emit: None });
    assert_eq!(scan_step(plain, '\\', None), ScanStep { mode: escaped, pair: false, emit: None });
    assert_eq!(scan_step(escaped, '"', None), ScanStep { mode: plain, pair: false, emit: None });
    assert_eq!(scan_step(escaped, '\\', None), ScanStep { mode: plain, pair: false, emit: None });
    assert_eq!(
        scan_step(plain, '"', None),
        ScanStep { mode: ScanMode::Neutral, pair: false, emit: None }
    );
    assert_eq!(scan_step(plain, '/', Some('/')), ScanStep { mode: plain, pair: false, emit: None });
}

#[test]
fn step_in_comments() {
    let line = ScanMode::LineComment;
    assert_eq!(scan_step(line, '(', None), ScanStep { mode: line, pair: false, emit: None });
    assert_eq!(
        scan_step(line, '\n', Some('(')),
        ScanStep { mode: ScanMode::Neutral, pair: false, emit: None }
    );
    let one = ScanMode::BlockComment { depth: 1 };
    let two = ScanMode::BlockComment { depth: 2 };
    assert_eq!(scan_step(one, '/', Some('*')), ScanStep { mode: two, pair: true, emit: None });
    assert_eq!(scan_step(two, '*', Some('/')), ScanStep { mode: one, pair: true, emit: None });
    assert_eq!(
        scan_step(one, '*', Some('/')),
        ScanStep { mode: ScanMode::Neutral, pair: true, emit: None }
    );
    assert_eq!(scan_step(one, '*', Some('(')), ScanStep { mode: one, pair: false, emit: None });
    assert_eq!(scan_step(one, '*', None), ScanStep { mode: one, pair: false, emit: None });
    assert_eq!(scan_step(one, '[', Some('(')), ScanStep { mode: one, pair: false, emit: None });
}
