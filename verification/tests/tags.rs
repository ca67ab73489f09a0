use wiktionary_part_of_speech_extract::{Tag, TagSet};

#[test]
fn tags() {
    let tags = TagSet::of(&[Tag::Determiner, Tag::Particle]);

    assert_eq!(tags.tags(), vec![Tag::Determiner, Tag::Particle]);
}

#[test]
fn tags_roundtrip_orders_and_dedups() {
    let tags = TagSet::of(&[Tag::Verb, Tag::Adjective, Tag::Verb, Tag::Adjective]);
    assert_eq!(tags.tags(), vec![Tag::Adjective, Tag::Verb]);

    let reversed = TagSet::of(&[Tag::Verb, Tag::Noun, Tag::Adverb]);
    let forward = TagSet::of(&[Tag::Adverb, Tag::Noun, Tag::Verb]);
    assert_eq!(reversed, forward);
    assert_eq!(reversed.tags(), vec![Tag::Adverb, Tag::Noun, Tag::Verb]);
}

#[test]
fn tags_roundtrip_all_thirteen() {
    let all = [
        Tag::Adjective,
        Tag::Adverb,
        Tag::Conjunction,
        Tag::Determiner,
        Tag::Interjection,
        Tag::Noun,
        Tag::Numeral,
        Tag::Particle,
        Tag::Postposition,
        Tag::Preposition,
        Tag::Pronoun,
        Tag::ProperNoun,
        Tag::Verb,
    ];
    let tags = TagSet::of(&all);
    assert_eq!(tags.tags(), all.to_vec());
}

#[test]
fn empty_tag_set() {
    let tags = TagSet::of(&[]);
    assert!(tags.is_empty());
    assert_eq!(tags.tags(), Vec::<Tag>::new());
    assert!(!TagSet::of(&[Tag::Noun]).is_empty());
}

#[test]
fn merge_is_commutative_and_associative_and_idempotent() {
    let a = TagSet::of(&[Tag::Noun, Tag::Verb]);
    let b = TagSet::of(&[Tag::Adjective]);
    let c = TagSet::of(&[Tag::Verb, Tag::Pronoun]);

    let mut ab = a.clone();
    ab.extend(b.clone());
    let mut ba = b.clone();
    ba.extend(a.clone());
    assert_eq!(ab, ba);

    let mut ab_c = ab.clone();
    ab_c.extend(c.clone());
    let mut bc = b.clone();
    bc.extend(c.clone());
    let mut a_bc = a.clone();
    a_bc.extend(bc);
    assert_eq!(ab_c, a_bc);

    let mut aa = a.clone();
    aa.extend(a.clone());
    assert_eq!(aa, a);
}

#[test]
fn remove_tag_set_difference() {
    let full = TagSet::of(&[Tag::Noun, Tag::ProperNoun, Tag::Verb]);
    let nouns = TagSet::of(&[Tag::Noun, Tag::ProperNoun]);
    assert_eq!(full.remove_tag_set(&nouns), TagSet::of(&[Tag::Verb]));
    assert!(nouns.remove_tag_set(&full).is_empty());
}

#[test]
fn mask_roundtrip() {
    let tags = TagSet::of(&[Tag::Adjective, Tag::Pronoun]);
    let mask = tags.to_mask();
    assert_eq!(TagSet::from_mask(mask), tags);
    // adjective sits at bit 0, pronoun at bit 10
    assert_eq!(mask, 0x1 | 0x400);
}

#[test]
fn insert_tag_and_mask() {
    let mut tags = TagSet::default();
    tags.insert_tag(&Tag::Interjection);
    assert_eq!(tags, TagSet::of(&[Tag::Interjection]));
    tags.insert_tag_mask(TagSet::of(&[Tag::Numeral]).to_mask());
    assert_eq!(tags, TagSet::of(&[Tag::Interjection, Tag::Numeral]));
}

#[test]
fn tag_mask_positions() {
    for i in 0..13u32 {
        let tag = Tag::from_u32(i);
        assert_eq!(tag.to_mask(), 1u32 << i);
    }
    assert_eq!(Tag::from_u32(0), Tag::Adjective);
    assert_eq!(Tag::from_u32(5), Tag::Noun);
    assert_eq!(Tag::from_u32(12), Tag::Verb);
}
