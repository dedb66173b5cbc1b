use bracket_scan::lexer::bracket::{bracket_lexer, BracketKind, BracketToken};
use bracket_scan::parser::bracket::{paren_parse, BracketPair};
use bracket_scan::utils::char_position::CharPosition;

fn token(kind: BracketKind, offset: usize) -> BracketToken {
    BracketToken { kind, position: CharPosition { line: 0, ch: offset, offset } }
}

fn pairs_of(text: &str) -> Vec<BracketPair> {
    paren_parse(&bracket_lexer(text))
}

/// Each pair as (open offset, close offset, depth).
fn shape(pairs: &[BracketPair]) -> Vec<(usize, usize, usize)> {
    pairs.iter().map(|p| (p.open.position.offset, p.close.position.offset, p.depth)).collect()
}

fn count(pairs: &[BracketPair], kind: BracketKind) -> usize {
    pairs.iter().filter(|p| p.kind == kind).count()
}

#[test]
fn no_token_gives_no_pair() {
    assert!(paren_parse(&[]).is_empty());
}

#[test]
fn one_pair() {
    let open = token(BracketKind::ParenOpen, 0);
    let close = token(BracketKind::ParenClose, 1);
    let pairs = paren_parse(&[open, close]);
    assert_eq!(pairs, vec![BracketPair { kind: BracketKind::ParenOpen, depth: 0, open, close }]);
}

#[test]
fn unmatched_close_is_dropped() {
    let tokens = bracket_lexer(")(");
    assert_eq!(tokens.len(), 2);
    assert!(paren_parse(&tokens).is_empty());
}

#[test]
fn interleaved_families_are_both_matched() {
    let pairs = pairs_of("[(])");
    assert_eq!(pairs.len(), 2);
    assert_eq!(pairs[0].kind, BracketKind::BracketOpen);
    assert_eq!(pairs[0].depth, 0);
    assert_eq!(pairs[1].kind, BracketKind::ParenOpen);
    assert_eq!(pairs[1].depth, 1);
    assert_eq!(shape(&pairs), vec![(0, 2, 0), (1, 3, 1)]);
}

#[test]
fn pairs_come_in_the_order_of_their_closers() {
    let pairs = pairs_of("([{}])()");
    assert_eq!(shape(&pairs), vec![(2, 3, 2), (1, 4, 1), (0, 5, 0), (6, 7, 0)]);
}

#[test]
fn depth_counts_openers_of_all_families() {
    let pairs = pairs_of("( [ ( { } ) ] )");
    assert_eq!(shape(&pairs), vec![(6, 8, 3), (4, 10, 2), (2, 12, 1), (0, 14, 0)]);
}

#[test]
fn depth_counts_unmatched_openers_too() {
    // the first opener is never closed and still counts
    let pairs = pairs_of("( [ ]");
    assert_eq!(shape(&pairs), vec![(2, 4, 1)]);
}

#[test]
fn closer_takes_the_nearest_opener_of_its_family() {
    let pairs = pairs_of("( ( [ )");
    assert_eq!(shape(&pairs), vec![(2, 6, 1)]);
    assert_eq!(pairs[0].kind, BracketKind::ParenOpen);
}

#[test]
fn closer_leaves_the_openers_above_its_own_in_place() {
    // `)` takes `(` from under `[` and `{`, which are closed later, in turn
    let pairs = pairs_of("([{)}]");
    assert_eq!(shape(&pairs), vec![(0, 3, 0), (2, 4, 2), (1, 5, 1)]);
}

#[test]
fn dropped_closer_changes_nothing() {
    let pairs = pairs_of("( ] )");
    assert_eq!(shape(&pairs), vec![(0, 4, 0)]);
    let pairs = pairs_of("[ ) ( } ]");
    assert_eq!(shape(&pairs), vec![(0, 8, 0)]);
}

#[test]
fn each_family_gets_the_lesser_of_its_openers_and_closers() {
    // no closer comes before its opener here
    let pairs = pairs_of("((( ) [ ] ] { {{ } }");
    assert_eq!(count(&pairs, BracketKind::ParenOpen), 1);
    assert_eq!(count(&pairs, BracketKind::BracketOpen), 1);
    assert_eq!(count(&pairs, BracketKind::BraceOpen), 2);
    assert_eq!(pairs.len(), 4);
}

#[test]
fn closers_that_come_too_early_are_lost() {
    // two openers and two closers, and one pair only
    let pairs = pairs_of(") ( ) (");
    assert_eq!(shape(&pairs), vec![(2, 4, 0)]);
}

#[test]
fn inner_pair_is_deeper_when_nothing_straddles_the_outer_opener() {
    let pairs = pairs_of("{ ( [ ] ) }");
    // [ ] within ( ) within { }
    assert_eq!(shape(&pairs), vec![(4, 6, 2), (2, 8, 1), (0, 10, 0)]);
    assert!(pairs[2].depth < pairs[1].depth);
    assert!(pairs[1].depth < pairs[0].depth);
}

#[test]
fn inner_pair_can_be_as_deep_as_the_outer_one_after_a_straddling_closer() {
    // `)` takes `(` from under `[`; `{` is then pushed at the height of `[`
    let pairs = pairs_of("([){}]");
    assert_eq!(shape(&pairs), vec![(0, 2, 0), (3, 4, 1), (1, 5, 1)]);
}

#[test]
fn pair_takes_the_kind_of_its_opener() {
    let pairs = pairs_of("() [] {}");
    let kinds: Vec<BracketKind> = pairs.iter().map(|p| p.kind).collect();
    assert_eq!(
        kinds,
        vec![BracketKind::ParenOpen, BracketKind::BracketOpen, BracketKind::BraceOpen]
    );
    for pair in &pairs {
        assert_eq!(pair.kind, pair.open.kind);
        assert_eq!(pair.close.kind.opener(), pair.open.kind);
        assert!(!pair.close.is_open());
    }
}

#[test]
fn brackets_in_strings_and_comments_are_not_matched() {
    // the last closer is character 20 of the text
    let pairs = pairs_of("( \")\" /* ) */ // )\n )");
    assert_eq!(shape(&pairs), vec![(0, 20, 0)]);
}

#[test]
fn fragment_between_the_offsets_starts_and_ends_with_the_delimiters() {
    let text = "a(🎉[\u{2600}]é)\n{日}";
    let units: Vec<u16> = text.encode_utf16().collect();
    let pairs = pairs_of(text);
    let fragments: Vec<String> = pairs
        .iter()
        .map(|p| String::from_utf16(&units[p.open.position.offset..=p.close.position.offset]).unwrap())
        .collect();
    assert_eq!(fragments, vec!["[\u{2600}]", "(🎉[\u{2600}]é)", "{日}"]);
}

#[test]
fn interleaved_fragment_is_cut_at_the_two_delimiters() {
    let text = "[(])";
    let units: Vec<u16> = text.encode_utf16().collect();
    let pairs = pairs_of(text);
    let fragments: Vec<String> = pairs
        .iter()
        .map(|p| String::from_utf16(&units[p.open.position.offset..=p.close.position.offset]).unwrap())
        .collect();
    assert_eq!(fragments, vec!["[(]", "(])"]);
}
