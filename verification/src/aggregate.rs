use vstd::prelude::*;
use crate::bytestr::{lex_lt, lemma_lex_lt_neq, lemma_lex_lt_total, lemma_lex_lt_trans, bytes_eq,
    bytes_lt};
use crate::lookup::{insert_run, entries_map, artifact_contents, genuine_artifact, TagsBuilder};
use crate::parse::PageInfo;
use crate::tags::{Tag, TagSet};

verus! {

use vstd::pervasive::VecAdditionalExecFns;
use vstd::string::StringSliceAdditionalSpecFns;
use vstd::utf8::{encode_utf8, is_ascii_chars};

/// What the transliteration engine returns for a string: a function of its
/// characters alone.
pub uninterp spec fn ascii_fold_of(s: Seq<char>) -> Seq<char>;

/// Relies on `unidecode::unidecode`: the result is a function of the input
/// characters alone, is pure ASCII, and maps every ASCII character to
/// itself, so an already-ASCII string comes back unchanged.
#[verifier::external_body]
fn fold_to_ascii(s: &str) -> (r: String)
    ensures
        r@ == ascii_fold_of(s@),
        is_ascii_chars(r@),
        is_ascii_chars(s@) ==> r@ == s@,
{
    unidecode::unidecode(s)
}

/// What one character becomes under ASCII lowercasing: the letters `A` to
/// `Z` (65 to 90) move down into `a` to `z`, all else is unchanged.
pub open spec fn ascii_lower_char(c: char) -> char {
    if 65 <= c as u32 && c as u32 <= 90 {
        ((c as u32 + 32) as u8) as char
    } else {
        c
    }
}

/// The string lowered character by character under ASCII rules.
pub open spec fn lowered_ascii(s: Seq<char>) -> Seq<char> {
    Seq::new(s.len(), |i: int| ascii_lower_char(s[i]))
}

/// Relies on `str::to_ascii_lowercase`: each character is lowered
/// independently; ASCII uppercase letters become lowercase, every other
/// character is unchanged.
#[verifier::external_body]
fn ascii_lowercase(s: &str) -> (r: String)
    ensures
        r@.len() == s@.len(),
        forall|i: int| 0 <= i < s@.len() ==> r@[i] == ascii_lower_char(s@[i]),
{
    s.to_ascii_lowercase()
}

/// What full Unicode lowercasing returns for a string: a function of its
/// characters alone.
pub uninterp spec fn unicode_lower_of(s: Seq<char>) -> Seq<char>;

/// Relies on `str::to_lowercase`: the result depends on the characters
/// alone, and an empty string stays empty.
#[verifier::external_body]
fn unicode_lowercase(s: &str) -> (r: String)
    ensures
        r@ == unicode_lower_of(s@),
        s@.len() == 0 ==> r@.len() == 0,
{
    s.to_lowercase()
}

/// The byte key a title is filed under: with flattening, the title is
/// transliterated to ASCII and lowercased; without, it is lowercased as
/// Unicode.  Either way the key is the UTF-8 encoding of the result.
pub open spec fn normalized_key(title: Seq<char>, flatten: bool) -> Seq<u8> {
    if flatten {
        encode_utf8(lowered_ascii(ascii_fold_of(title)))
    } else {
        encode_utf8(unicode_lower_of(title))
    }
}

/// Normalize one title for deduplication.  Public so that callers can
/// obtain, at a call site, the transliteration facts that pin a concrete
/// title's key (an ASCII title folds to itself).
pub fn normalize_title(title: &str, flatten: bool) -> (r: String)
    ensures
        encode_utf8(r@) == normalized_key(title@, flatten),
{
    if flatten {
        let folded = fold_to_ascii(title);
        let lowered = ascii_lowercase(folded.as_str());
        proof {
            assert(lowered@ =~= lowered_ascii(ascii_fold_of(title@)));
        }
        lowered
    } else {
        unicode_lowercase(title)
    }
}

/// How the final artifact is shaped.
pub struct FSTOptions {
    /// Flatten titles to an ASCII approximation before lowercasing; the
    /// result is always lowercased either way.
    pub flatten_unicode: bool,
    /// Drop any entry whose merged tag set holds nothing besides the noun
    /// and proper-noun tags.  An entry kept for other tags still stores its
    /// noun tags.
    pub exclude_pages_which_have_only_nouns: bool,
}

/// The packed mask of the tags that do not by themselves justify an entry:
/// noun (0x20) and proper noun (0x800) when exclusion is on.
pub open spec fn exclusion_mask(options: &FSTOptions) -> u32 {
    if options.exclude_pages_which_have_only_nouns {
        0x820u32
    } else {
        0u32
    }
}

/// Whether a record with this tag mask is kept: something must remain
/// after the excluded tags are set aside.
pub open spec fn record_kept(mask: u32, exclude: u32) -> bool {
    mask & !exclude != 0
}

/// The normalized aggregation of a record sequence into map `m`: each kept
/// record files its full original tag mask under its normalized title,
/// merging by bitwise union with whatever is already filed there.
pub open spec fn agg_map(
    records: Seq<PageInfo>,
    exclude: u32,
    flatten: bool,
    m: Map<Seq<u8>, u32>,
) -> Map<Seq<u8>, u32>
    decreases records.len(),
{
    if records.len() == 0 {
        m
    } else {
        let rec = records[0];
        let rest = records.skip(1);
        if record_kept(rec.tags.mask(), exclude) {
            let k = normalized_key(rec.title@, flatten);
            let merged = if m.contains_key(k) {
                m[k] | rec.tags.mask()
            } else {
                rec.tags.mask()
            };
            agg_map(rest, exclude, flatten, m.insert(k, merged))
        } else {
            agg_map(rest, exclude, flatten, m)
        }
    }
}

/// The byte key of one aggregated entry.
pub open spec fn entry_key(e: (String, TagSet)) -> Seq<u8> {
    encode_utf8(e.0@)
}

/// The finite map described by a sequence of aggregated entries, later
/// entries winning.
pub open spec fn entry_view_map(entries: Seq<(String, TagSet)>) -> Map<Seq<u8>, u32>
    decreases entries.len(),
{
    if entries.len() == 0 {
        Map::empty()
    } else {
        entry_view_map(entries.drop_last()).insert(entry_key(entries.last()), entries.last().1.mask())
    }
}

/// Entry keys strictly ascend in byte order.
pub open spec fn sorted_by_key(entries: Seq<(String, TagSet)>) -> bool {
    forall|i: int, j: int|
        0 <= i < j < entries.len() ==> lex_lt(entry_key(entries[i]), entry_key(entries[j]))
}

/// No two entries share a key.
pub open spec fn distinct_keys(entries: Seq<(String, TagSet)>) -> bool {
    forall|i: int, j: int|
        0 <= i < j < entries.len() ==> entry_key(entries[i]) != entry_key(entries[j])
}

/// Every stored tag set is well formed.
pub open spec fn entries_wf(entries: Seq<(String, TagSet)>) -> bool {
    forall|i: int| 0 <= i < entries.len() ==> (#[trigger] entries[i].1).wf()
}

/// Strictly ascending keys are distinct.
pub proof fn lemma_sorted_distinct(entries: Seq<(String, TagSet)>)
    requires
        sorted_by_key(entries),
    ensures
        distinct_keys(entries),
{
    assert forall|i: int, j: int|
        0 <= i < j < entries.len() implies entry_key(entries[i]) != entry_key(entries[j]) by {
        lemma_lex_lt_neq(entry_key(entries[i]), entry_key(entries[j]));
    }
}

proof fn lemma_entry_map_get(entries: Seq<(String, TagSet)>, i: int)
    requires
        distinct_keys(entries),
        0 <= i < entries.len(),
    ensures
        entry_view_map(entries).contains_key(entry_key(entries[i])),
        entry_view_map(entries)[entry_key(entries[i])] == entries[i].1.mask(),
    decreases entries.len(),
{
    if i < entries.len() - 1 {
        lemma_entry_map_get(entries.drop_last(), i);
    }
}

proof fn lemma_entry_map_absent(entries: Seq<(String, TagSet)>, k: Seq<u8>)
    requires
        forall|i: int| 0 <= i < entries.len() ==> entry_key(entries[i]) != k,
    ensures
        !entry_view_map(entries).contains_key(k),
    decreases entries.len(),
{
    if entries.len() != 0 {
        lemma_entry_map_absent(entries.drop_last(), k);
    }
}

proof fn lemma_entry_map_update(entries: Seq<(String, TagSet)>, i: int, e: (String, TagSet))
    requires
        distinct_keys(entries),
        0 <= i < entries.len(),
        entry_key(e) == entry_key(entries[i]),
    ensures
        entry_view_map(entries.update(i, e)) == entry_view_map(entries).insert(
            entry_key(e),
            e.1.mask(),
        ),
    decreases entries.len(),
{
    let updated = entries.update(i, e);
    if i == entries.len() - 1 {
        assert(updated.drop_last() =~= entries.drop_last());
        assert(entry_view_map(entries.update(i, e)) =~= entry_view_map(entries).insert(
            entry_key(e),
            e.1.mask(),
        ));
    } else {
        assert(updated.drop_last() =~= entries.drop_last().update(i, e));
        lemma_entry_map_update(entries.drop_last(), i, e);
        assert(entry_key(entries[i]) != entry_key(entries.last()));
        assert(entry_view_map(entries.update(i, e)) =~= entry_view_map(entries).insert(
            entry_key(e),
            e.1.mask(),
        ));
    }
}

proof fn lemma_entry_map_insert(entries: Seq<(String, TagSet)>, i: int, e: (String, TagSet))
    requires
        forall|j: int| 0 <= j < entries.len() ==> entry_key(entries[j]) != entry_key(e),
        0 <= i <= entries.len(),
    ensures
        entry_view_map(entries.insert(i, e)) == entry_view_map(entries).insert(
            entry_key(e),
            e.1.mask(),
        ),
    decreases entries.len(),
{
    let inserted = entries.insert(i, e);
    if i == entries.len() {
        assert(inserted.drop_last() =~= entries);
        assert(inserted.last() == e);
    } else {
        assert(inserted.last() == entries.last());
        assert(inserted.drop_last() =~= entries.drop_last().insert(i, e));
        lemma_entry_map_insert(entries.drop_last(), i, e);
        assert(entry_key(entries.last()) != entry_key(e));
        assert(entry_view_map(inserted) =~= entry_view_map(entries).insert(
            entry_key(e),
            e.1.mask(),
        ));
    }
}

/// File one record under its normalized title, keeping the entries sorted:
/// a title already present has the record's tags merged into its set by
/// union, a new title is spliced in at its ordered position.
fn insert_merge(out: &mut Vec<(String, TagSet)>, title: String, tags: TagSet)
    requires
        sorted_by_key(old(out)@),
        entries_wf(old(out)@),
        tags.wf(),
    ensures
        sorted_by_key(final(out)@),
        entries_wf(final(out)@),
        entry_view_map(final(out)@) == ({
            let k = encode_utf8(title@);
            let m = entry_view_map(old(out)@);
            m.insert(
                k,
                if m.contains_key(k) {
                    m[k] | tags.mask()
                } else {
                    tags.mask()
                },
            )
        }),
{
    let ghost k = encode_utf8(title@);
    let mut idx: usize = 0;
    while idx < out.len()
        invariant
            out@ == old(out)@,
            sorted_by_key(out@),
            entries_wf(out@),
            tags.wf(),
            idx <= out@.len(),
            k == encode_utf8(title@),
            forall|j: int| 0 <= j < idx ==> lex_lt(entry_key(out@[j]), k),
        decreases out@.len() - idx,
    {
        let lt = bytes_lt(out[idx].0.as_str().as_bytes(), title.as_str().as_bytes());
        if !lt {
            let eq = bytes_eq(out[idx].0.as_str().as_bytes(), title.as_str().as_bytes());
            if eq {
                let ghost pre = out@;
                let key_clone = out[idx].0.clone();
                let mut merged = out[idx].1;
                merged.extend(tags);
                proof {
                    lemma_sorted_distinct(pre);
                    lemma_entry_map_get(pre, idx as int);
                    lemma_entry_map_update(pre, idx as int, (key_clone, merged));
                }
                out.set(idx, (key_clone, merged));
                proof {
                    assert(entry_key(out@[idx as int]) == entry_key(pre[idx as int]));
                    assert forall|a: int, b: int| 0 <= a < b < out@.len() implies lex_lt(
                        entry_key(out@[a]),
                        entry_key(out@[b]),
                    ) by {
                        assert(entry_key(out@[a]) == entry_key(pre[a]));
                        assert(entry_key(out@[b]) == entry_key(pre[b]));
                    }
                }
                return ;
            } else {
                let ghost pre = out@;
                proof {
                    lemma_lex_lt_total(entry_key(pre[idx as int]), k);
                    assert(lex_lt(k, entry_key(pre[idx as int])));
                    assert forall|j: int| 0 <= j < pre.len() implies entry_key(pre[j]) != k by {
                        if j < idx {
                            lemma_lex_lt_neq(entry_key(pre[j]), k);
                        } else {
                            if j > idx {
                                lemma_lex_lt_trans(
                                    k,
                                    entry_key(pre[idx as int]),
                                    entry_key(pre[j]),
                                );
                            }
                            lemma_lex_lt_neq(k, entry_key(pre[j]));
                        }
                    }
                    lemma_entry_map_absent(pre, k);
                    lemma_entry_map_insert(pre, idx as int, (title, tags));
                    pre.insert_ensures(idx as int, (title, tags));
                }
                out.insert(idx, (title, tags));
                proof {
                    let cur = out@;
                    assert forall|a: int, b: int| 0 <= a < b < cur.len() implies lex_lt(
                        entry_key(cur[a]),
                        entry_key(cur[b]),
                    ) by {
                        if b < idx {
                        } else if a < idx && b == idx {
                            assert(cur[a] == pre[a]);
                            assert(cur[b] == (title, tags));
                        } else if a < idx && b > idx {
                            assert(cur[a] == pre[a]);
                            assert(cur[b] == pre[b - 1]);
                            if b - 1 == idx {
                                lemma_lex_lt_trans(
                                    entry_key(pre[a]),
                                    k,
                                    entry_key(pre[b - 1]),
                                );
                            }
                        } else if a == idx {
                            assert(cur[a] == (title, tags));
                            assert(cur[b] == pre[b - 1]);
                            if b - 1 > idx {
                                lemma_lex_lt_trans(
                                    k,
                                    entry_key(pre[idx as int]),
                                    entry_key(pre[b - 1]),
                                );
                            }
                        } else {
                            assert(cur[a] == pre[a - 1]);
                            assert(cur[b] == pre[b - 1]);
                        }
                    }
                    assert forall|i: int| 0 <= i < cur.len() implies (#[trigger] cur[i].1).wf() by {
                        if i < idx {
                            assert(cur[i] == pre[i]);
                        } else if i > idx {
                            assert(cur[i] == pre[i - 1]);
                        }
                    }
                }
                return ;
            }
        }
        idx = idx + 1;
    }
    let ghost pre = out@;
    proof {
        assert forall|j: int| 0 <= j < pre.len() implies entry_key(pre[j]) != k by {
            lemma_lex_lt_neq(entry_key(pre[j]), k);
        }
        lemma_entry_map_absent(pre, k);
        lemma_entry_map_insert(pre, pre.len() as int, (title, tags));
        assert(pre.insert(pre.len() as int, (title, tags)) =~= pre.push((title, tags)));
    }
    out.push((title, tags));
    proof {
        assert forall|a: int, b: int| 0 <= a < b < out@.len() implies lex_lt(
            entry_key(out@[a]),
            entry_key(out@[b]),
        ) by {
            assert(out@[a] == pre[a]);
            if b < pre.len() {
                assert(out@[b] == pre[b]);
            }
        }
        assert forall|i: int| 0 <= i < out@.len() implies (#[trigger] out@[i].1).wf() by {
            if i < pre.len() {
                assert(out@[i] == pre[i]);
            }
        }
    }
}

/// Aggregate all parsed records into the final sorted, deduplicated
/// `(title, tag set)` collection: records whose tags are all excluded are
/// dropped, titles are normalized, and records sharing a normalized title
/// merge their tag sets by union.  The result's keys strictly ascend in
/// byte order, as the artifact builder requires.
pub fn aggregate_pages(pages: &Vec<PageInfo>, options: &FSTOptions) -> (out: Vec<(String, TagSet)>)
    requires
        forall|i: int| 0 <= i < pages@.len() ==> (#[trigger] pages@[i]).tags.wf(),
    ensures
        sorted_by_key(out@),
        entries_wf(out@),
        entry_view_map(out@) == agg_map(
            pages@,
            exclusion_mask(options),
            options.flatten_unicode,
            Map::empty(),
        ),
{
    let exclude = if options.exclude_pages_which_have_only_nouns {
        let mut e = TagSet::default();
        e.insert_tag(&Tag::Noun);
        e.insert_tag(&Tag::ProperNoun);
        proof {
            assert(0u32 | 0x20u32 == 0x20u32 && 0x20u32 | 0x800u32 == 0x820u32) by (bit_vector);
        }
        e
    } else {
        TagSet::default()
    };
    let ghost ex = exclusion_mask(options);
    let mut out: Vec<(String, TagSet)> = Vec::new();
    let mut i: usize = 0;
    proof {
        assert(pages@.skip(0) =~= pages@);
    }
    while i < pages.len()
        invariant
            forall|j: int| 0 <= j < pages@.len() ==> (#[trigger] pages@[j]).tags.wf(),
            i <= pages@.len(),
            exclude.mask() == ex,
            ex == exclusion_mask(options),
            sorted_by_key(out@),
            entries_wf(out@),
            agg_map(pages@.skip(i as int), ex, options.flatten_unicode, entry_view_map(out@))
                == agg_map(pages@, ex, options.flatten_unicode, Map::empty()),
        decreases pages@.len() - i,
    {
        let page = &pages[i];
        proof {
            assert(pages@.skip(i as int)[0] == pages@[i as int]);
            assert(pages@.skip(i as int).skip(1) =~= pages@.skip(i as int + 1));
        }
        let leftover = page.tags.remove_tag_set(&exclude);
        if !leftover.is_empty() {
            let norm = normalize_title(page.title.as_str(), options.flatten_unicode);
            insert_merge(&mut out, norm, page.tags);
        }
        i = i + 1;
    }
    proof {
        assert(pages@.skip(pages@.len() as int) =~= Seq::<PageInfo>::empty());
    }
    out
}

/// The builder entries described by aggregated items: each title's UTF-8
/// bytes keyed to its packed mask, widened to the artifact's value width.
pub open spec fn as_entry_pairs(items: Seq<(String, TagSet)>) -> Seq<(Seq<u8>, u64)> {
    items.map_values(|e: (String, TagSet)| (entry_key(e), e.1.mask() as u64))
}

/// The same finite map with its values widened to the artifact's width.
pub open spec fn widened(m: Map<Seq<u8>, u32>) -> Map<Seq<u8>, u64> {
    Map::new(|k: Seq<u8>| m.contains_key(k), |k: Seq<u8>| m[k] as u64)
}

/// Feeding a builder whose accepted keys all sit below a strictly
/// ascending run of items accepts the whole run, appending it in order.
pub proof fn lemma_insert_run_ascending(
    entries: Seq<(Seq<u8>, u64)>,
    items: Seq<(String, TagSet)>,
)
    requires
        sorted_by_key(items),
        entries.len() == 0 || forall|i: int|
            0 <= i < items.len() ==> lex_lt(entries.last().0, entry_key(#[trigger] items[i])),
    ensures
        insert_run(entries, items).1,
        insert_run(entries, items).0 == entries + as_entry_pairs(items),
    decreases items.len(),
{
    if items.len() == 0 {
        assert(entries + as_entry_pairs(items) =~= entries);
    } else {
        let key = encode_utf8(items[0].0@);
        let pushed = entries.push((key, items[0].1.mask() as u64));
        let rest = items.skip(1);
        assert forall|a: int, b: int| 0 <= a < b < rest.len() implies lex_lt(
            entry_key(rest[a]),
            entry_key(rest[b]),
        ) by {
            assert(rest[a] == items[a + 1]);
            assert(rest[b] == items[b + 1]);
        }
        assert forall|i: int| 0 <= i < rest.len() implies lex_lt(
            pushed.last().0,
            entry_key(#[trigger] rest[i]),
        ) by {
            assert(rest[i] == items[i + 1]);
            assert(pushed.last().0 == entry_key(items[0]));
            assert(lex_lt(entry_key(items[0]), entry_key(items[i + 1])));
        }
        lemma_insert_run_ascending(pushed, rest);
        assert(pushed + as_entry_pairs(rest) =~= entries + as_entry_pairs(items));
    }
}

/// The map described by the widened entry pairs is the widened map of the
/// entries.
pub proof fn lemma_entries_map_widened(out: Seq<(String, TagSet)>)
    ensures
        entries_map(as_entry_pairs(out)) == widened(entry_view_map(out)),
    decreases out.len(),
{
    if out.len() == 0 {
        assert(entries_map(as_entry_pairs(out)) =~= widened(entry_view_map(out)));
    } else {
        let dl = out.drop_last();
        assert(as_entry_pairs(out).drop_last() =~= as_entry_pairs(dl));
        lemma_entries_map_widened(dl);
        assert(as_entry_pairs(out).last() == (entry_key(out.last()), out.last().1.mask() as u64));
        assert(entries_map(as_entry_pairs(out)) =~= widened(entry_view_map(out)));
    }
}

/// Build the serialized artifact from all parsed records: aggregate them,
/// stream the sorted result into the builder, and seal it.  The sorted
/// order proves that the builder accepts every entry, so an in-memory
/// build cannot fail; the result is a genuine artifact encoding exactly
/// the aggregated entries.
pub fn build_artifact(pages: &Vec<PageInfo>, options: &FSTOptions) -> (r: Vec<u8>)
    requires
        forall|i: int| 0 <= i < pages@.len() ==> (#[trigger] pages@[i]).tags.wf(),
    ensures
        genuine_artifact(r@),
        artifact_contents(r@) == widened(
            agg_map(pages@, exclusion_mask(options), options.flatten_unicode, Map::empty()),
        ),
{
    let sorted = aggregate_pages(pages, options);
    let mut tb = TagsBuilder::in_memory();
    let outcome = tb.extend_iter(&sorted);
    proof {
        lemma_insert_run_ascending(Seq::<(Seq<u8>, u64)>::empty(), sorted@);
        assert(Seq::<(Seq<u8>, u64)>::empty() + as_entry_pairs(sorted@) =~= as_entry_pairs(
            sorted@,
        ));
        lemma_entries_map_widened(sorted@);
    }
    match outcome {
        Ok(_) => (),
        Err(_) => (),
    }
    tb.into_inner()
}

} // verus!
