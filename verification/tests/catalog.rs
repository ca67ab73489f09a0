use wiktionary_part_of_speech_extract::catalog::resolve;
use wiktionary_part_of_speech_extract::Tag;

fn check_all(tag: Tag, aliases: &[&str]) {
    for alias in aliases {
        assert_eq!(resolve(alias), Some(tag), "alias {:?}", alias);
    }
}

#[test]
fn resolve_adjective_aliases() {
    check_all(
        Tag::Adjective,
        &["en-adj", "en-adjective", "en|head|adj", "en|head|adjective", "head|en|adjective"],
    );
}

#[test]
fn resolve_adverb_aliases() {
    check_all(
        Tag::Adverb,
        &["en-adv", "en-adverb", "en|head|adv", "en|head|adverb", "head|en|adverb"],
    );
}

#[test]
fn resolve_conjunction_aliases() {
    check_all(
        Tag::Conjunction,
        &[
            "en-con",
            "en-conj",
            "en-conjunction",
            "en-conj-simple",
            "en|head|con",
            "en|head|conj",
            "en|head|conjunction",
        ],
    );
}

#[test]
fn resolve_determiner_aliases() {
    check_all(Tag::Determiner, &["en-det", "en|head|det", "head|en|determiner"]);
}

#[test]
fn resolve_interjection_aliases() {
    check_all(
        Tag::Interjection,
        &[
            "en-interj",
            "en-interjection",
            "en-intj",
            "en|head|interj",
            "en|head|interjection",
            "head|en|interjection",
        ],
    );
}

#[test]
fn resolve_noun_aliases() {
    check_all(
        Tag::Noun,
        &["en-noun", "en|head|noun", "head|en|noun", "head|en|noun form", "en-plural noun"],
    );
}

#[test]
fn resolve_numeral_aliases() {
    check_all(Tag::Numeral, &["en-num", "en|head|num"]);
}

#[test]
fn resolve_particle_aliases() {
    check_all(Tag::Particle, &["en-part", "en|head|part"]);
}

#[test]
fn resolve_postposition_aliases() {
    check_all(Tag::Postposition, &["en-postp", "en|head|postp"]);
}

#[test]
fn resolve_preposition_aliases() {
    check_all(Tag::Preposition, &["en-prep", "en|head|prep"]);
}

#[test]
fn resolve_pronoun_aliases() {
    check_all(Tag::Pronoun, &["en-pron", "en|head|pron"]);
}

#[test]
fn resolve_proper_noun_aliases() {
    check_all(Tag::ProperNoun, &["en-proper noun", "en|head|proper noun"]);
}

#[test]
fn resolve_verb_aliases() {
    check_all(Tag::Verb, &["en-verb", "head|en|verb", "head|en|verb form"]);
}

#[test]
fn resolve_unknown_tokens() {
    assert_eq!(resolve(""), None);
    assert_eq!(resolve("en-"), None);
    assert_eq!(resolve("en-nou"), None);
    assert_eq!(resolve("en-noun "), None);
    assert_eq!(resolve(" en-noun"), None);
    assert_eq!(resolve("EN-NOUN"), None);
    assert_eq!(resolve("En-Noun"), None);
    assert_eq!(resolve("fr-noun"), None);
    assert_eq!(resolve("en-nounx"), None);
    assert_eq!(resolve("head|en|"), None);
    assert_eq!(resolve("zzzqqq123"), None);
}

#[test]
fn resolve_is_case_sensitive() {
    // matching is byte-exact: only the spelling in the table resolves
    assert_eq!(resolve("en-noun"), Some(Tag::Noun));
    assert_eq!(resolve("en-NOUN"), None);
    assert_eq!(resolve("en-Proper Noun"), None);
    assert_eq!(resolve("en-proper noun"), Some(Tag::ProperNoun));
}
