use vstd::prelude::*;
use crate::bytestr::bytes_eq;
use crate::tags::Tag;

verus! {

use vstd::string::StringSliceAdditionalSpecFns;

/// Aliases naming the adjective tag.
pub open spec fn adjective_alias(token: Seq<u8>) -> bool {
    ||| token == "en-adj".spec_bytes()
    ||| token == "en-adjective".spec_bytes()
    ||| token == "en|head|adj".spec_bytes()
    ||| token == "en|head|adjective".spec_bytes()
    ||| token == "head|en|adjective".spec_bytes()
}

/// Aliases naming the adverb tag.
pub open spec fn adverb_alias(token: Seq<u8>) -> bool {
    ||| token == "en-adv".spec_bytes()
    ||| token == "en-adverb".spec_bytes()
    ||| token == "en|head|adv".spec_bytes()
    ||| token == "en|head|adverb".spec_bytes()
    ||| token == "head|en|adverb".spec_bytes()
}

/// Aliases naming the conjunction tag.
pub open spec fn conjunction_alias(token: Seq<u8>) -> bool {
    ||| token == "en-con".spec_bytes()
    ||| token == "en-conj".spec_bytes()
    ||| token == "en-conjunction".spec_bytes()
    ||| token == "en-conj-simple".spec_bytes()
    ||| token == "en|head|con".spec_bytes()
    ||| token == "en|head|conj".spec_bytes()
    ||| token == "en|head|conjunction".spec_bytes()
}

/// Aliases naming the determiner tag.
pub open spec fn determiner_alias(token: Seq<u8>) -> bool {
    ||| token == "en-det".spec_bytes()
    ||| token == "en|head|det".spec_bytes()
    ||| token == "head|en|determiner".spec_bytes()
}

/// Aliases naming the interjection tag.
pub open spec fn interjection_alias(token: Seq<u8>) -> bool {
    ||| token == "en-interj".spec_bytes()
    ||| token == "en-interjection".spec_bytes()
    ||| token == "en-intj".spec_bytes()
    ||| token == "en|head|interj".spec_bytes()
    ||| token == "en|head|interjection".spec_bytes()
    ||| token == "head|en|interjection".spec_bytes()
}

/// Aliases naming the noun tag.
pub open spec fn noun_alias(token: Seq<u8>) -> bool {
    ||| token == "en-noun".spec_bytes()
    ||| token == "en|head|noun".spec_bytes()
    ||| token == "head|en|noun".spec_bytes()
    ||| token == "head|en|noun form".spec_bytes()
    ||| token == "en-plural noun".spec_bytes()
}

/// Aliases naming the numeral tag.
pub open spec fn numeral_alias(token: Seq<u8>) -> bool {
    ||| token == "en-num".spec_bytes()
    ||| token == "en|head|num".spec_bytes()
}

/// Aliases naming the particle tag.
pub open spec fn particle_alias(token: Seq<u8>) -> bool {
    ||| token == "en-part".spec_bytes()
    ||| token == "en|head|part".spec_bytes()
}

/// Aliases naming the postposition tag.
pub open spec fn postposition_alias(token: Seq<u8>) -> bool {
    ||| token == "en-postp".spec_bytes()
    ||| token == "en|head|postp".spec_bytes()
}

/// Aliases naming the preposition tag.
pub open spec fn preposition_alias(token: Seq<u8>) -> bool {
    ||| token == "en-prep".spec_bytes()
    ||| token == "en|head|prep".spec_bytes()
}

/// Aliases naming the pronoun tag.
pub open spec fn pronoun_alias(token: Seq<u8>) -> bool {
    ||| token == "en-pron".spec_bytes()
    ||| token == "en|head|pron".spec_bytes()
}

/// Aliases naming the proper-noun tag.
pub open spec fn proper_noun_alias(token: Seq<u8>) -> bool {
    ||| token == "en-proper noun".spec_bytes()
    ||| token == "en|head|proper noun".spec_bytes()
}

/// Aliases naming the verb tag.
pub open spec fn verb_alias(token: Seq<u8>) -> bool {
    ||| token == "en-verb".spec_bytes()
    ||| token == "head|en|verb".spec_bytes()
    ||| token == "head|en|verb form".spec_bytes()
}

/// The canonical tag named by a raw markup token, if the token is exactly
/// one of the known aliases.  Matching is byte-exact and case-sensitive:
/// some aliases deliberately differ only by letter case from other markup
/// tokens, so callers must not normalize before resolving.
pub open spec fn alias_tag(token: Seq<u8>) -> Option<Tag> {
    if adjective_alias(token) {
        Some(Tag::Adjective)
    } else if adverb_alias(token) {
        Some(Tag::Adverb)
    } else if conjunction_alias(token) {
        Some(Tag::Conjunction)
    } else if determiner_alias(token) {
        Some(Tag::Determiner)
    } else if interjection_alias(token) {
        Some(Tag::Interjection)
    } else if noun_alias(token) {
        Some(Tag::Noun)
    } else if numeral_alias(token) {
        Some(Tag::Numeral)
    } else if particle_alias(token) {
        Some(Tag::Particle)
    } else if postposition_alias(token) {
        Some(Tag::Postposition)
    } else if preposition_alias(token) {
        Some(Tag::Preposition)
    } else if pronoun_alias(token) {
        Some(Tag::Pronoun)
    } else if proper_noun_alias(token) {
        Some(Tag::ProperNoun)
    } else if verb_alias(token) {
        Some(Tag::Verb)
    } else {
        None
    }
}

/// Whether `token` matches any alias of the adjective tag.
fn is_adjective_alias(token: &[u8]) -> (r: bool)
    ensures
        r == adjective_alias(token@),
{
    bytes_eq(token, "en-adj".as_bytes()) || bytes_eq(token, "en-adjective".as_bytes()) || bytes_eq(
        token,
        "en|head|adj".as_bytes(),
    ) || bytes_eq(token, "en|head|adjective".as_bytes()) || bytes_eq(
        token,
        "head|en|adjective".as_bytes(),
    )
}

/// Whether `token` matches any alias of the adverb tag.
fn is_adverb_alias(token: &[u8]) -> (r: bool)
    ensures
        r == adverb_alias(token@),
{
    bytes_eq(token, "en-adv".as_bytes()) || bytes_eq(token, "en-adverb".as_bytes()) || bytes_eq(
        token,
        "en|head|adv".as_bytes(),
    ) || bytes_eq(token, "en|head|adverb".as_bytes()) || bytes_eq(
        token,
        "head|en|adverb".as_bytes(),
    )
}

/// Whether `token` matches any alias of the conjunction tag.
fn is_conjunction_alias(token: &[u8]) -> (r: bool)
    ensures
        r == conjunction_alias(token@),
{
    bytes_eq(token, "en-con".as_bytes()) || bytes_eq(token, "en-conj".as_bytes()) || bytes_eq(
        token,
        "en-conjunction".as_bytes(),
    ) || bytes_eq(token, "en-conj-simple".as_bytes()) || bytes_eq(
        token,
        "en|head|con".as_bytes(),
    ) || bytes_eq(token, "en|head|conj".as_bytes()) || bytes_eq(
        token,
        "en|head|conjunction".as_bytes(),
    )
}

/// Whether `token` matches any alias of the determiner tag.
fn is_determiner_alias(token: &[u8]) -> (r: bool)
    ensures
        r == determiner_alias(token@),
{
    bytes_eq(token, "en-det".as_bytes()) || bytes_eq(token, "en|head|det".as_bytes()) || bytes_eq(
        token,
        "head|en|determiner".as_bytes(),
    )
}

/// Whether `token` matches any alias of the interjection tag.
fn is_interjection_alias(token: &[u8]) -> (r: bool)
    ensures
        r == interjection_alias(token@),
{
    bytes_eq(token, "en-interj".as_bytes()) || bytes_eq(token, "en-interjection".as_bytes())
        || bytes_eq(token, "en-intj".as_bytes()) || bytes_eq(token, "en|head|interj".as_bytes())
        || bytes_eq(token, "en|head|interjection".as_bytes()) || bytes_eq(
        token,
        "head|en|interjection".as_bytes(),
    )
}

/// Whether `token` matches any alias of the noun tag.
fn is_noun_alias(token: &[u8]) -> (r: bool)
    ensures
        r == noun_alias(token@),
{
    bytes_eq(token, "en-noun".as_bytes()) || bytes_eq(token, "en|head|noun".as_bytes())
        || bytes_eq(token, "head|en|noun".as_bytes()) || bytes_eq(
        token,
        "head|en|noun form".as_bytes(),
    ) || bytes_eq(token, "en-plural noun".as_bytes())
}

/// Whether `token` matches any alias of the numeral tag.
fn is_numeral_alias(token: &[u8]) -> (r: bool)
    ensures
        r == numeral_alias(token@),
{
    bytes_eq(token, "en-num".as_bytes()) || bytes_eq(token, "en|head|num".as_bytes())
}

/// Whether `token` matches any alias of the particle tag.
fn is_particle_alias(token: &[u8]) -> (r: bool)
    ensures
        r == particle_alias(token@),
{
    bytes_eq(token, "en-part".as_bytes()) || bytes_eq(token, "en|head|part".as_bytes())
}

/// Whether `token` matches any alias of the postposition tag.
fn is_postposition_alias(token: &[u8]) -> (r: bool)
    ensures
        r == postposition_alias(token@),
{
    bytes_eq(token, "en-postp".as_bytes()) || bytes_eq(token, "en|head|postp".as_bytes())
}

/// Whether `token` matches any alias of the preposition tag.
fn is_preposition_alias(token: &[u8]) -> (r: bool)
    ensures
        r == preposition_alias(token@),
{
    bytes_eq(token, "en-prep".as_bytes()) || bytes_eq(token, "en|head|prep".as_bytes())
}

/// Whether `token` matches any alias of the pronoun tag.
fn is_pronoun_alias(token: &[u8]) -> (r: bool)
    ensures
        r == pronoun_alias(token@),
{
    bytes_eq(token, "en-pron".as_bytes()) || bytes_eq(token, "en|head|pron".as_bytes())
}

/// Whether `token` matches any alias of the proper-noun tag.
fn is_proper_noun_alias(token: &[u8]) -> (r: bool)
    ensures
        r == proper_noun_alias(token@),
{
    bytes_eq(token, "en-proper noun".as_bytes()) || bytes_eq(
        token,
        "en|head|proper noun".as_bytes(),
    )
}

/// Whether `token` matches any alias of the verb tag.
fn is_verb_alias(token: &[u8]) -> (r: bool)
    ensures
        r == verb_alias(token@),
{
    bytes_eq(token, "en-verb".as_bytes()) || bytes_eq(token, "head|en|verb".as_bytes())
        || bytes_eq(token, "head|en|verb form".as_bytes())
}

/// Resolve a raw markup token, given as bytes, against the alias table.
pub fn resolve_bytes(token: &[u8]) -> (r: Option<Tag>)
    ensures
        r == alias_tag(token@),
{
    if is_adjective_alias(token) {
        Some(Tag::Adjective)
    } else if is_adverb_alias(token) {
        Some(Tag::Adverb)
    } else if is_conjunction_alias(token) {
        Some(Tag::Conjunction)
    } else if is_determiner_alias(token) {
        Some(Tag::Determiner)
    } else if is_interjection_alias(token) {
        Some(Tag::Interjection)
    } else if is_noun_alias(token) {
        Some(Tag::Noun)
    } else if is_numeral_alias(token) {
        Some(Tag::Numeral)
    } else if is_particle_alias(token) {
        Some(Tag::Particle)
    } else if is_postposition_alias(token) {
        Some(Tag::Postposition)
    } else if is_preposition_alias(token) {
        Some(Tag::Preposition)
    } else if is_pronoun_alias(token) {
        Some(Tag::Pronoun)
    } else if is_proper_noun_alias(token) {
        Some(Tag::ProperNoun)
    } else if is_verb_alias(token) {
        Some(Tag::Verb)
    } else {
        None
    }
}

/// Resolve a raw markup token against the alias table: the canonical tag if
/// the token is exactly a known alias, absent otherwise.
pub fn resolve(token: &str) -> (r: Option<Tag>)
    ensures
        r == alias_tag(token.spec_bytes()),
{
    resolve_bytes(token.as_bytes())
}

} // verus!
