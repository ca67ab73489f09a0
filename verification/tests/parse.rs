use wiktionary_part_of_speech_extract::{parse_page, PageInfo, Tag, TagSet, TokenTally};

fn parse_one(page: &str) -> (Result<(), String>, Vec<PageInfo>, TokenTally) {
    let mut tally = TokenTally::new();
    let mut records = Vec::new();
    let outcome = parse_page(&mut tally, &mut records, page);
    (outcome, records, tally)
}

#[test]
fn page_with_title_and_body() {
    let page = "  <title>walk</title>\n  <text>A stroll. {{en-noun}} and {{en-verb}}</text>";
    let (outcome, records, _) = parse_one(page);
    assert!(outcome.is_ok());
    assert_eq!(records.len(), 1);
    assert_eq!(records[0].title, "walk");
    assert_eq!(records[0].tags, TagSet::of(&[Tag::Noun, Tag::Verb]));
}

#[test]
fn page_without_title_is_an_error() {
    let page = "  <text>{{en-noun}}</text>";
    let (outcome, records, tally) = parse_one(page);
    assert_eq!(outcome, Err("Failed to find title for page".to_string()));
    assert!(records.is_empty());
    assert_eq!(tally.len(), 0);
}

#[test]
fn page_without_body_is_skipped_silently() {
    let page = "  <title>walk</title>\n  no text marker here {{en-noun}}";
    let (outcome, records, tally) = parse_one(page);
    assert!(outcome.is_ok());
    assert!(records.is_empty());
    assert_eq!(tally.len(), 0);
}

#[test]
fn empty_title_element_is_not_a_title() {
    let page = "<title><</title>\n<text>{{en-noun}}</text>";
    let (outcome, records, _) = parse_one(page);
    assert!(outcome.is_err());
    assert!(records.is_empty());
}

#[test]
fn later_nonempty_title_wins_over_empty_one() {
    let page = "<title><x\n<title>real</title>\n<text>{{en-verb}}</text>";
    let (outcome, records, _) = parse_one(page);
    assert!(outcome.is_ok());
    assert_eq!(records[0].title, "real");
}

#[test]
fn candidates_only_counted_inside_body() {
    let page = "<title>walk</title> {{en-noun}} <text>{{en-verb}}</text>";
    let (outcome, records, tally) = parse_one(page);
    assert!(outcome.is_ok());
    assert_eq!(records[0].tags, TagSet::of(&[Tag::Verb]));
    assert_eq!(tally.len(), 1);
    let (token, count) = tally.pair_at(0);
    assert_eq!(token.as_slice(), &b"en-verb"[..]);
    assert_eq!(count, 1);
}

#[test]
fn whitespace_after_opener_and_trailing_trim() {
    let page = "<title>w</title><text>{{  \t\n en-proper noun |head=}} {{ en-adj}}</text>";
    let (outcome, records, tally) = parse_one(page);
    assert!(outcome.is_ok());
    assert_eq!(records[0].tags, TagSet::of(&[Tag::ProperNoun, Tag::Adjective]));
    assert_eq!(tally.len(), 2);
    let (first, _) = tally.pair_at(0);
    assert_eq!(first.as_slice(), &b"en-proper noun"[..]);
}

#[test]
fn token_stops_at_stoppers() {
    // digits, dots and ampersands cut a candidate short of a known alias
    let page = "<title>w</title><text>{{en-noun2000}} {{en-adj.x}} {{en-verb&amp;}}</text>";
    let (outcome, records, tally) = parse_one(page);
    assert!(outcome.is_ok());
    assert_eq!(records[0].tags, TagSet::of(&[Tag::Noun, Tag::Adjective, Tag::Verb]));
    assert_eq!(tally.len(), 3);
}

#[test]
fn unresolved_candidates_are_tallied_but_not_tagged() {
    let page = "<title>w</title><text>{{en-suffix}} {{en-noun}} {{en-noun}}</text>";
    let (outcome, records, tally) = parse_one(page);
    assert!(outcome.is_ok());
    assert_eq!(records[0].tags, TagSet::of(&[Tag::Noun]));
    assert_eq!(tally.len(), 2);
    let (suffix_token, suffix_count) = tally.pair_at(0);
    assert_eq!(suffix_token.as_slice(), &b"en-suffix"[..]);
    assert_eq!(suffix_count, 1);
    let (noun_token, noun_count) = tally.pair_at(1);
    assert_eq!(noun_token.as_slice(), &b"en-noun"[..]);
    assert_eq!(noun_count, 2);
}

#[test]
fn head_pipe_form_is_recognized() {
    // only `en-` and `head|en|` open a candidate; a bare `en|...` does not
    let page = "<title>w</title><text>{{head|en|noun form}} {{en|head|adj}}</text>";
    let (outcome, records, _) = parse_one(page);
    assert!(outcome.is_ok());
    assert_eq!(records[0].tags, TagSet::of(&[Tag::Noun]));
}

#[test]
fn braces_without_prefix_are_ignored() {
    let page = "<title>w</title><text>{{infl|en|noun}} {{xyz}} {{ }}</text>";
    let (outcome, records, tally) = parse_one(page);
    assert!(outcome.is_ok());
    assert!(records[0].tags.is_empty());
    assert_eq!(tally.len(), 0);
}

#[test]
fn title_running_to_end_of_page() {
    let page = "<text>{{en-adv}}</text><title>tail";
    let (outcome, records, _) = parse_one(page);
    assert!(outcome.is_ok());
    assert_eq!(records[0].title, "tail");
    assert_eq!(records[0].tags, TagSet::of(&[Tag::Adverb]));
}

#[test]
fn overlapping_braces_still_find_candidate() {
    let page = "<title>w</title><text>{{{{en-noun}}</text>";
    let (outcome, records, _) = parse_one(page);
    assert!(outcome.is_ok());
    assert_eq!(records[0].tags, TagSet::of(&[Tag::Noun]));
}
