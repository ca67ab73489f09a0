use wiktionary_part_of_speech_extract::{
    aggregate_pages, build_artifact, parse_page, FSTOptions, PageAssembler, PageInfo, Tag, TagSet,
    TagsBuilder, TagsLookup, TokenTally,
};

fn record(title: &str, tags: &[Tag]) -> PageInfo {
    PageInfo { title: title.to_string(), tags: TagSet::of(tags) }
}

fn default_options() -> FSTOptions {
    FSTOptions { flatten_unicode: true, exclude_pages_which_have_only_nouns: true }
}

#[test]
fn exclusion_keeps_merged_entry_with_full_tags() {
    // "Cat" and "cat" normalize to one key; the merged set minus the
    // exclusion set is non-empty, so the entry stays and stores the full
    // merged set, not the filtered one
    let pages = vec![record("Cat", &[Tag::Noun]), record("cat", &[Tag::Noun, Tag::Verb])];
    let out = aggregate_pages(&pages, &default_options());
    assert_eq!(out.len(), 1);
    assert_eq!(out[0].0, "cat");
    assert_eq!(out[0].1, TagSet::of(&[Tag::Noun, Tag::Verb]));
}

#[test]
fn noun_only_page_is_dropped() {
    let pages = vec![record("dog", &[Tag::Noun]), record("Berlin", &[Tag::ProperNoun, Tag::Noun])];
    let out = aggregate_pages(&pages, &default_options());
    assert!(out.is_empty());
}

#[test]
fn aggregation_sorts_titles_in_byte_order() {
    let pages = vec![
        record("zebra", &[Tag::Verb]),
        record("Apple", &[Tag::Adjective]),
        record("mango", &[Tag::Adverb]),
    ];
    let out = aggregate_pages(&pages, &default_options());
    let titles: Vec<&str> = out.iter().map(|e| e.0.as_str()).collect();
    assert_eq!(titles, vec!["apple", "mango", "zebra"]);
}

#[test]
fn aggregation_without_exclusion_keeps_noun_only_pages() {
    let options = FSTOptions { flatten_unicode: true, exclude_pages_which_have_only_nouns: false };
    let pages = vec![record("dog", &[Tag::Noun])];
    let out = aggregate_pages(&pages, &options);
    assert_eq!(out.len(), 1);
    assert_eq!(out[0].0, "dog");
    assert_eq!(out[0].1, TagSet::of(&[Tag::Noun]));
}

#[test]
fn diacritics_flatten_to_ascii() {
    let pages = vec![record("étude", &[Tag::Noun, Tag::Verb]), record("Etude", &[Tag::Adjective])];
    let out = aggregate_pages(&pages, &default_options());
    assert_eq!(out.len(), 1);
    assert_eq!(out[0].0, "etude");
    assert_eq!(out[0].1, TagSet::of(&[Tag::Adjective, Tag::Noun, Tag::Verb]));
}

#[test]
fn builder_rejects_out_of_order_keys() {
    let mut builder = TagsBuilder::in_memory();
    assert!(builder.insert_tag_set("cat", &TagSet::of(&[Tag::Noun])).is_ok());
    assert!(builder.insert_tag_set("bat", &TagSet::of(&[Tag::Verb])).is_err());
}

#[test]
fn builder_rejects_duplicate_keys() {
    let mut builder = TagsBuilder::in_memory();
    assert!(builder.insert_tag_set("cat", &TagSet::of(&[Tag::Noun])).is_ok());
    assert!(builder.insert_tag_set("cat", &TagSet::of(&[Tag::Noun])).is_err());
}

#[test]
fn builder_accepts_strictly_ascending_keys() {
    let mut builder = TagsBuilder::in_memory();
    assert!(builder.insert_tag_set("bat", &TagSet::of(&[Tag::Noun])).is_ok());
    assert!(builder.insert_tag_set("cat", &TagSet::of(&[Tag::Verb])).is_ok());
    assert!(builder.insert_tag_set("cats", &TagSet::of(&[Tag::Noun])).is_ok());
    assert!(builder.finish().is_ok());
}

#[test]
fn insert_tag_stores_single_tag() {
    let mut builder = TagsBuilder::in_memory();
    builder.insert_tag("walk", &Tag::Verb);
    let bytes = builder.into_inner();
    let lookup = TagsLookup::new(bytes).unwrap();
    assert_eq!(lookup.get("walk"), Some(TagSet::of(&[Tag::Verb])));
}

#[test]
fn reader_returns_exact_sets_and_absent_for_others() {
    let mut builder = TagsBuilder::in_memory();
    let entries = [
        ("ant", TagSet::of(&[Tag::Noun])),
        ("run", TagSet::of(&[Tag::Noun, Tag::Verb])),
        ("the", TagSet::of(&[Tag::Determiner])),
    ];
    for (key, tags) in entries.iter() {
        assert!(builder.insert_tag_set(key, tags).is_ok());
    }
    let bytes = builder.into_inner();
    let lookup = TagsLookup::new(bytes).unwrap();
    for (key, tags) in entries.iter() {
        assert_eq!(lookup.get(key), Some(tags.clone()));
    }
    assert_eq!(lookup.get("zzzqqq123"), None);
    assert_eq!(lookup.get("ru"), None);
    assert_eq!(lookup.get("runs"), None);
    assert_eq!(lookup.get("Run"), None);
}

#[test]
fn invalid_artifact_bytes_are_refused() {
    let outcome = TagsLookup::new(vec![1, 2, 3, 4]);
    assert_eq!(
        outcome.err().unwrap(),
        "Invalid TagsLookup: the bytes are not a verified artifact".to_string()
    );
    assert!(TagsLookup::new(Vec::new()).is_err());
}

#[test]
fn corrupted_artifact_bytes_are_refused_at_load() {
    // a byte flipped in the middle leaves the footer intact, so only the
    // checksum run at load can catch it; no partial reader is produced
    let mut builder = TagsBuilder::in_memory();
    assert!(builder.insert_tag_set("run", &TagSet::of(&[Tag::Verb])).is_ok());
    let mut bytes = builder.into_inner();
    let mid = bytes.len() / 2;
    bytes[mid] ^= 0xFF;
    assert!(TagsLookup::new(bytes).is_err());
}

#[test]
fn empty_input_builds_empty_artifact() {
    let pages: Vec<PageInfo> = Vec::new();
    let bytes = build_artifact(&pages, &default_options());
    let lookup = TagsLookup::new(bytes).unwrap();
    assert_eq!(lookup.get(""), None);
    assert_eq!(lookup.get("anything"), None);
}

#[test]
fn end_to_end_two_pages() {
    let lines = [
        "<page>",
        "  <title>Run</title>",
        "  <text>{{en-noun}} some prose {{en-verb}}</text>",
        "</page>",
        "<page>",
        "  <title>run</title>",
        "  <text>{{en-verb}}</text>",
        "</page>",
    ];
    let mut assembler = PageAssembler::new();
    let mut tally = TokenTally::new();
    let mut records = Vec::new();
    for line in lines.iter() {
        if let Some(page) = assembler.push_line(line) {
            parse_page(&mut tally, &mut records, &page).unwrap();
        }
    }
    assert_eq!(records.len(), 2);
    let bytes = build_artifact(&records, &default_options());
    let lookup = TagsLookup::new(bytes).unwrap();
    assert_eq!(lookup.get("run"), Some(TagSet::of(&[Tag::Noun, Tag::Verb])));
    assert_eq!(lookup.get("walk"), None);
}

#[test]
fn extend_iter_inserts_sorted_run() {
    let mut builder = TagsBuilder::in_memory();
    let items = vec![
        ("ant".to_string(), TagSet::of(&[Tag::Noun])),
        ("bee".to_string(), TagSet::of(&[Tag::Noun, Tag::Verb])),
        ("cow".to_string(), TagSet::of(&[Tag::Noun])),
    ];
    assert!(builder.extend_iter(&items).is_ok());
    let lookup = TagsLookup::new(builder.into_inner()).unwrap();
    assert_eq!(lookup.get("bee"), Some(TagSet::of(&[Tag::Noun, Tag::Verb])));
}

#[test]
fn extend_iter_stops_at_out_of_order_item() {
    let mut builder = TagsBuilder::in_memory();
    let items = vec![
        ("bee".to_string(), TagSet::of(&[Tag::Noun])),
        ("ant".to_string(), TagSet::of(&[Tag::Verb])),
        ("cow".to_string(), TagSet::of(&[Tag::Noun])),
    ];
    assert!(builder.extend_iter(&items).is_err());
    // the run stopped after the first item: it alone was accepted
    let lookup = TagsLookup::new(builder.into_inner()).unwrap();
    assert_eq!(lookup.get("bee"), Some(TagSet::of(&[Tag::Noun])));
    assert_eq!(lookup.get("ant"), None);
    assert_eq!(lookup.get("cow"), None);
}
