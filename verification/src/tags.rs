use vstd::prelude::*;

verus! {

/// One of the thirteen canonical grammatical part-of-speech categories.
#[derive(Clone, Copy, Debug, PartialEq, Eq, Structural)]
pub enum Tag {
    Adjective,
    Adverb,
    Conjunction,
    Determiner,
    Interjection,
    Noun,
    Numeral,
    Particle,
    Postposition,
    Preposition,
    Pronoun,
    ProperNoun,
    Verb,
}

/// Canonical position of a tag: the index of its bit inside a packed
/// [`TagSet`] mask, and the order in which tags are enumerated.
pub open spec fn tag_index(t: Tag) -> u32 {
    match t {
        Tag::Adjective => 0,
        Tag::Adverb => 1,
        Tag::Conjunction => 2,
        Tag::Determiner => 3,
        Tag::Interjection => 4,
        Tag::Noun => 5,
        Tag::Numeral => 6,
        Tag::Particle => 7,
        Tag::Postposition => 8,
        Tag::Preposition => 9,
        Tag::Pronoun => 10,
        Tag::ProperNoun => 11,
        Tag::Verb => 12,
    }
}

/// The single-bit mask of one tag: bit `tag_index(t)` set, all others clear.
pub open spec fn tag_mask(t: Tag) -> u32 {
    match t {
        Tag::Adjective => 0x1,
        Tag::Adverb => 0x2,
        Tag::Conjunction => 0x4,
        Tag::Determiner => 0x8,
        Tag::Interjection => 0x10,
        Tag::Noun => 0x20,
        Tag::Numeral => 0x40,
        Tag::Particle => 0x80,
        Tag::Postposition => 0x100,
        Tag::Preposition => 0x200,
        Tag::Pronoun => 0x400,
        Tag::ProperNoun => 0x800,
        Tag::Verb => 0x1000,
    }
}

/// The tag whose canonical position is `i`.
pub open spec fn tag_from_index(i: u32) -> Tag
    recommends
        i < 13,
{
    if i == 0 {
        Tag::Adjective
    } else if i == 1 {
        Tag::Adverb
    } else if i == 2 {
        Tag::Conjunction
    } else if i == 3 {
        Tag::Determiner
    } else if i == 4 {
        Tag::Interjection
    } else if i == 5 {
        Tag::Noun
    } else if i == 6 {
        Tag::Numeral
    } else if i == 7 {
        Tag::Particle
    } else if i == 8 {
        Tag::Postposition
    } else if i == 9 {
        Tag::Preposition
    } else if i == 10 {
        Tag::Pronoun
    } else if i == 11 {
        Tag::ProperNoun
    } else {
        Tag::Verb
    }
}

/// Whether tag `t` is present in the packed mask `mask`.
pub open spec fn mask_contains(mask: u32, t: Tag) -> bool {
    mask & tag_mask(t) != 0
}

/// A mask is well formed when only the thirteen defined tag bits are set.
pub open spec fn mask_wf(mask: u32) -> bool {
    mask < 0x2000
}

/// The mask holding exactly the tags that occur in `ts`.
pub open spec fn mask_of_seq(ts: Seq<Tag>) -> u32
    decreases ts.len(),
{
    if ts.len() == 0 {
        0u32
    } else {
        mask_of_seq(ts.drop_last()) | tag_mask(ts.last())
    }
}

/// The tags among canonical positions `0 .. n` that are present in `mask`,
/// in ascending canonical order.
pub open spec fn tags_upto(mask: u32, n: nat) -> Seq<Tag>
    decreases n,
{
    if n == 0 {
        Seq::empty()
    } else {
        tags_upto(mask, (n - 1) as nat) + (if mask_contains(mask, tag_from_index((n - 1) as u32)) {
            seq![tag_from_index((n - 1) as u32)]
        } else {
            Seq::empty()
        })
    }
}

/// The ordered enumeration of all tags present in `mask`.
pub open spec fn tags_of_mask(mask: u32) -> Seq<Tag> {
    tags_upto(mask, 13)
}

impl Tag {
    /// The packed single-bit mask of this tag.
    pub fn to_mask(self) -> (r: u32)
        ensures
            r == tag_mask(self),
    {
        match self {
            Tag::Adjective => 0x1,
            Tag::Adverb => 0x2,
            Tag::Conjunction => 0x4,
            Tag::Determiner => 0x8,
            Tag::Interjection => 0x10,
            Tag::Noun => 0x20,
            Tag::Numeral => 0x40,
            Tag::Particle => 0x80,
            Tag::Postposition => 0x100,
            Tag::Preposition => 0x200,
            Tag::Pronoun => 0x400,
            Tag::ProperNoun => 0x800,
            Tag::Verb => 0x1000,
        }
    }

    /// The tag at canonical position `i`.
    pub fn from_u32(i: u32) -> (r: Tag)
        requires
            i < 13,
        ensures
            r == tag_from_index(i),
    {
        match i {
            0 => Tag::Adjective,
            1 => Tag::Adverb,
            2 => Tag::Conjunction,
            3 => Tag::Determiner,
            4 => Tag::Interjection,
            5 => Tag::Noun,
            6 => Tag::Numeral,
            7 => Tag::Particle,
            8 => Tag::Postposition,
            9 => Tag::Preposition,
            10 => Tag::Pronoun,
            11 => Tag::ProperNoun,
            _ => Tag::Verb,
        }
    }
}

/// A set of tags, packed as a 32-bit mask: bit `tag_index(t)` is set exactly
/// when tag `t` is present.  Only the thirteen defined bits are ever set.
#[derive(Clone, Copy, Debug, PartialEq, Eq, Structural)]
pub struct TagSet(u32);

impl Default for TagSet {
    /// The empty tag set.
    fn default() -> (r: Self)
        ensures
            r.mask() == 0,
    {
        TagSet(0)
    }
}

impl TagSet {
    /// The packed mask of this set.
    pub closed spec fn mask(&self) -> u32 {
        self.0
    }

    /// Whether tag `t` is present.
    pub open spec fn has(&self, t: Tag) -> bool {
        mask_contains(self.mask(), t)
    }

    /// Only defined tag bits are set.
    pub open spec fn wf(&self) -> bool {
        mask_wf(self.mask())
    }

    /// The set holding exactly the tags of the given slice, in any order,
    /// duplicates ignored.
    pub fn of(tags: &[Tag]) -> (r: Self)
        ensures
            r.mask() == mask_of_seq(tags@),
            r.wf(),
    {
        let ghost all = tags@;
        let mut acc = TagSet(0);
        let mut i: usize = 0;
        proof {
            assert(all.take(0) =~= Seq::empty());
        }
        while i < tags.len()
            invariant
                i <= tags.len(),
                tags@ == all,
                acc.0 == mask_of_seq(all.take(i as int)),
                mask_wf(acc.0),
            decreases tags.len() - i,
        {
            let t = tags[i];
            proof {
                assert(all.take(i + 1).drop_last() =~= all.take(i as int));
                assert(all.take(i + 1).last() == all[i as int]);
                lemma_union_keeps_wf(acc.0, tag_mask(t));
            }
            acc._insert_tag(&t);
            i = i + 1;
        }
        proof {
            assert(all.take(tags@.len() as int) =~= all);
        }
        acc
    }

    /// A set from a raw packed mask; bits outside the defined range are
    /// discarded, so the result is always well formed.
    pub fn from_mask(mask: u32) -> (r: Self)
        ensures
            r.mask() == mask & 0x1FFF,
            r.wf(),
    {
        proof {
            assert(mask & 0x1FFF < 0x2000) by (bit_vector);
        }
        TagSet(mask & 0x1FFF)
    }

    /// Whether no tag is present.
    pub fn is_empty(&self) -> (r: bool)
        ensures
            r == (self.mask() == 0),
    {
        self.0 == 0
    }

    /// The raw packed mask.
    pub fn to_mask(&self) -> (r: u32)
        ensures
            r == self.mask(),
    {
        self.0
    }

    /// Add one tag to the set.
    pub fn _insert_tag(&mut self, tag: &Tag)
        ensures
            final(self).mask() == old(self).mask() | tag_mask(*tag),
            old(self).wf() ==> final(self).wf(),
    {
        proof {
            lemma_union_keeps_wf(self.0, tag_mask(*tag));
        }
        self.0 = self.0 | tag.to_mask();
    }

    /// Add one tag to the set.
    pub fn insert_tag(&mut self, tag: &Tag)
        ensures
            final(self).mask() == old(self).mask() | tag_mask(*tag),
            old(self).wf() ==> final(self).wf(),
    {
        self._insert_tag(tag)
    }

    /// The set difference `self minus tag_set`: every tag of `self` that is
    /// not in `tag_set`.
    pub fn remove_tag_set(&self, tag_set: &Self) -> (r: Self)
        ensures
            r.mask() == self.mask() & !tag_set.mask(),
            self.wf() ==> r.wf(),
    {
        proof {
            lemma_difference_keeps_wf(self.0, tag_set.0);
        }
        TagSet(self.0 & !tag_set.0)
    }

    /// Union: add every tag of `other` to `self`.
    pub fn extend(&mut self, other: Self)
        ensures
            final(self).mask() == old(self).mask() | other.mask(),
            old(self).wf() && other.wf() ==> final(self).wf(),
    {
        proof {
            lemma_union_keeps_wf(self.0, other.0);
        }
        self.0 = self.0 | other.0;
    }

    /// Add every tag of the raw packed mask `tag`, which must hold only
    /// defined tag bits.
    pub fn insert_tag_mask(&mut self, tag: u32)
        requires
            mask_wf(tag),
        ensures
            final(self).mask() == old(self).mask() | tag,
            old(self).wf() ==> final(self).wf(),
    {
        proof {
            lemma_union_keeps_wf(self.0, tag);
        }
        self.0 = self.0 | tag;
    }

    /// All tags of the set, from lowest to highest canonical position.
    pub fn tags(&self) -> (r: Vec<Tag>)
        ensures
            r@ == tags_of_mask(self.mask()),
    {
        let mut v: Vec<Tag> = Vec::new();
        let mut i: u32 = 0;
        proof {
            assert(v@ =~= tags_upto(self.0, 0));
        }
        while i < 13
            invariant
                i <= 13,
                v@ == tags_upto(self.0, i as nat),
            decreases 13 - i,
        {
            let t = Tag::from_u32(i);
            if self.0 & t.to_mask() != 0 {
                v.push(t);
            } else {
                proof {
                    assert(v@ + Seq::<Tag>::empty() =~= v@);
                }
            }
            i = i + 1;
        }
        v
    }
}

/// A sequence of tags is sorted when canonical positions strictly ascend;
/// such a sequence holds no duplicates.
pub open spec fn sorted_tags(s: Seq<Tag>) -> bool {
    forall|i: int, j: int| 0 <= i < j < s.len() ==> tag_index(s[i]) < tag_index(s[j])
}

/// Every tag's mask is its canonical bit.
proof fn lemma_tag_mask_is_shift(t: Tag)
    ensures
        tag_mask(t) == 1u32 << tag_index(t),
{
    assert(1u32 << 0u32 == 0x1 && 1u32 << 1u32 == 0x2 && 1u32 << 2u32 == 0x4 && 1u32 << 3u32
        == 0x8 && 1u32 << 4u32 == 0x10 && 1u32 << 5u32 == 0x20 && 1u32 << 6u32 == 0x40 && 1u32
        << 7u32 == 0x80 && 1u32 << 8u32 == 0x100 && 1u32 << 9u32 == 0x200 && 1u32 << 10u32 == 0x400
        && 1u32 << 11u32 == 0x800 && 1u32 << 12u32 == 0x1000) by (bit_vector);
}

/// Distinct tags occupy distinct bits.
proof fn lemma_tag_masks_disjoint(t: Tag, l: Tag)
    requires
        t != l,
    ensures
        tag_mask(t) & tag_mask(l) == 0,
{
    lemma_tag_mask_is_shift(t);
    lemma_tag_mask_is_shift(l);
    let i = tag_index(t);
    let j = tag_index(l);
    assert((1u32 << i) & (1u32 << j) == 0) by (bit_vector)
        requires
            i < 13,
            j < 13,
            i != j,
    ;
}

/// Membership in a union of masks is membership in either mask.
pub proof fn lemma_mask_contains_union(a: u32, b: u32, t: Tag)
    ensures
        mask_contains(a | b, t) == (mask_contains(a, t) || mask_contains(b, t)),
{
    let m = tag_mask(t);
    assert(((a | b) & m != 0) == ((a & m != 0) || (b & m != 0))) by (bit_vector);
}

/// A single tag's mask contains exactly that tag.
pub proof fn lemma_mask_contains_single(t: Tag, l: Tag)
    ensures
        mask_contains(tag_mask(l), t) == (t == l),
{
    if t == l {
        let m = tag_mask(t);
        assert(m != 0);
        assert((m & m != 0) == (m != 0)) by (bit_vector);
    } else {
        lemma_tag_masks_disjoint(l, t);
    }
}

/// The empty mask contains no tag.
pub proof fn lemma_mask_contains_empty(t: Tag)
    ensures
        !mask_contains(0u32, t),
{
    let m = tag_mask(t);
    assert(0u32 & m == 0) by (bit_vector);
}

/// The mask built from a sequence contains exactly the tags of the sequence.
pub proof fn lemma_mask_of_seq_contains(ts: Seq<Tag>, t: Tag)
    ensures
        mask_contains(mask_of_seq(ts), t) == ts.contains(t),
    decreases ts.len(),
{
    if ts.len() == 0 {
        lemma_mask_contains_empty(t);
    } else {
        let rest = ts.drop_last();
        lemma_mask_of_seq_contains(rest, t);
        lemma_mask_contains_union(mask_of_seq(rest), tag_mask(ts.last()), t);
        lemma_mask_contains_single(t, ts.last());
        if ts.contains(t) {
            let i = choose|i: int| 0 <= i < ts.len() && ts[i] == t;
            if i < ts.len() - 1 {
                assert(rest[i] == t);
            }
        }
        if rest.contains(t) {
            let i = choose|i: int| 0 <= i < rest.len() && rest[i] == t;
            assert(ts[i] == t);
        }
    }
}

/// The mask built from any sequence of tags is well formed.
pub proof fn lemma_mask_of_seq_wf(ts: Seq<Tag>)
    ensures
        mask_wf(mask_of_seq(ts)),
    decreases ts.len(),
{
    if ts.len() != 0 {
        lemma_mask_of_seq_wf(ts.drop_last());
        lemma_union_keeps_wf(mask_of_seq(ts.drop_last()), tag_mask(ts.last()));
    }
}

/// Two well-formed masks holding the same tags are the same mask.
pub proof fn lemma_mask_extensional(m1: u32, m2: u32)
    requires
        mask_wf(m1),
        mask_wf(m2),
        forall|t: Tag| mask_contains(m1, t) == mask_contains(m2, t),
    ensures
        m1 == m2,
{
    assert(mask_contains(m1, Tag::Adjective) == mask_contains(m2, Tag::Adjective));
    assert(mask_contains(m1, Tag::Adverb) == mask_contains(m2, Tag::Adverb));
    assert(mask_contains(m1, Tag::Conjunction) == mask_contains(m2, Tag::Conjunction));
    assert(mask_contains(m1, Tag::Determiner) == mask_contains(m2, Tag::Determiner));
    assert(mask_contains(m1, Tag::Interjection) == mask_contains(m2, Tag::Interjection));
    assert(mask_contains(m1, Tag::Noun) == mask_contains(m2, Tag::Noun));
    assert(mask_contains(m1, Tag::Numeral) == mask_contains(m2, Tag::Numeral));
    assert(mask_contains(m1, Tag::Particle) == mask_contains(m2, Tag::Particle));
    assert(mask_contains(m1, Tag::Postposition) == mask_contains(m2, Tag::Postposition));
    assert(mask_contains(m1, Tag::Preposition) == mask_contains(m2, Tag::Preposition));
    assert(mask_contains(m1, Tag::Pronoun) == mask_contains(m2, Tag::Pronoun));
    assert(mask_contains(m1, Tag::ProperNoun) == mask_contains(m2, Tag::ProperNoun));
    assert(mask_contains(m1, Tag::Verb) == mask_contains(m2, Tag::Verb));
    assert(m1 == m2) by (bit_vector)
        requires
            m1 < 0x2000,
            m2 < 0x2000,
            (m1 & 0x1u32 != 0) == (m2 & 0x1u32 != 0),
            (m1 & 0x2u32 != 0) == (m2 & 0x2u32 != 0),
            (m1 & 0x4u32 != 0) == (m2 & 0x4u32 != 0),
            (m1 & 0x8u32 != 0) == (m2 & 0x8u32 != 0),
            (m1 & 0x10u32 != 0) == (m2 & 0x10u32 != 0),
            (m1 & 0x20u32 != 0) == (m2 & 0x20u32 != 0),
            (m1 & 0x40u32 != 0) == (m2 & 0x40u32 != 0),
            (m1 & 0x80u32 != 0) == (m2 & 0x80u32 != 0),
            (m1 & 0x100u32 != 0) == (m2 & 0x100u32 != 0),
            (m1 & 0x200u32 != 0) == (m2 & 0x200u32 != 0),
            (m1 & 0x400u32 != 0) == (m2 & 0x400u32 != 0),
            (m1 & 0x800u32 != 0) == (m2 & 0x800u32 != 0),
            (m1 & 0x1000u32 != 0) == (m2 & 0x1000u32 != 0),
    ;
}

/// Every tag enumerated among the first `n` positions sits below position `n`
/// and belongs to the mask.
proof fn lemma_tags_upto_contains(mask: u32, n: nat, t: Tag)
    requires
        n <= 13,
    ensures
        tags_upto(mask, n).contains(t) == (mask_contains(mask, t) && tag_index(t) < n),
    decreases n,
{
    if n == 0 {
    } else {
        let prev = tags_upto(mask, (n - 1) as nat);
        lemma_tags_upto_contains(mask, (n - 1) as nat, t);
        let l = tag_from_index((n - 1) as u32);
        assert(tag_index(l) == n - 1);
        if mask_contains(mask, l) {
            assert(tags_upto(mask, n) == prev + seq![l]);
            assert(tags_upto(mask, n).contains(t) == (prev.contains(t) || t == l)) by {
                if prev.contains(t) {
                    let i = choose|i: int| 0 <= i < prev.len() && prev[i] == t;
                    assert(tags_upto(mask, n)[i] == t);
                } else if t == l {
                    assert(tags_upto(mask, n)[prev.len() as int] == t);
                } else if tags_upto(mask, n).contains(t) {
                    let i = choose|i: int|
                        0 <= i < tags_upto(mask, n).len() && tags_upto(mask, n)[i] == t;
                    if i < prev.len() {
                        assert(prev[i] == t);
                    }
                }
            }
            if t == l {
                assert(tag_index(t) < n);
            }
        } else {
            assert(tags_upto(mask, n) =~= prev);
            if t == l {
                assert(!mask_contains(mask, t));
            }
        }
        if t != l && tag_index(t) < n {
            assert(tag_index(t) != n - 1) by {
                if tag_index(t) == tag_index(l) {
                    assert(t == l);
                }
            }
        }
    }
}

/// The enumeration of the first `n` positions is sorted.
proof fn lemma_tags_upto_sorted(mask: u32, n: nat)
    requires
        n <= 13,
    ensures
        sorted_tags(tags_upto(mask, n)),
        forall|k: int|
            0 <= k < tags_upto(mask, n).len() ==> tag_index(#[trigger] tags_upto(mask, n)[k]) < n,
    decreases n,
{
    if n != 0 {
        let prev = tags_upto(mask, (n - 1) as nat);
        lemma_tags_upto_sorted(mask, (n - 1) as nat);
        let l = tag_from_index((n - 1) as u32);
        assert(tag_index(l) == n - 1);
        if mask_contains(mask, l) {
            assert(tags_upto(mask, n) == prev + seq![l]);
        } else {
            assert(tags_upto(mask, n) =~= prev);
        }
    }
}

/// Packing any sequence of tags and enumerating the result yields exactly
/// the distinct tags of the sequence, in ascending canonical order,
/// regardless of the order or multiplicity of the input.
pub proof fn lemma_tagset_roundtrip(ts: Seq<Tag>)
    ensures
        forall|t: Tag| #[trigger]
            tags_of_mask(mask_of_seq(ts)).contains(t) == ts.contains(t),
        sorted_tags(tags_of_mask(mask_of_seq(ts))),
{
    let mask = mask_of_seq(ts);
    lemma_tags_upto_sorted(mask, 13);
    assert forall|t: Tag|
        #[trigger] tags_of_mask(mask).contains(t) == ts.contains(t) by {
        lemma_mask_of_seq_contains(ts, t);
        lemma_tags_upto_contains(mask, 13, t);
    }
}

/// Two tag sequences with the same members pack to the same mask: building a
/// set ignores order and duplicates.
pub proof fn lemma_mask_of_seq_members(a: Seq<Tag>, b: Seq<Tag>)
    requires
        forall|t: Tag| a.contains(t) == b.contains(t),
    ensures
        mask_of_seq(a) == mask_of_seq(b),
{
    lemma_mask_of_seq_wf(a);
    lemma_mask_of_seq_wf(b);
    assert forall|t: Tag| mask_contains(mask_of_seq(a), t) == mask_contains(
        mask_of_seq(b),
        t,
    ) by {
        lemma_mask_of_seq_contains(a, t);
        lemma_mask_of_seq_contains(b, t);
    }
    lemma_mask_extensional(mask_of_seq(a), mask_of_seq(b));
}

/// Merging tag sets is associative.
pub proof fn lemma_merge_assoc(a: u32, b: u32, c: u32)
    ensures
        (a | (b | c)) == ((a | b) | c),
{
    assert((a | (b | c)) == ((a | b) | c)) by (bit_vector);
}

/// Merging tag sets is commutative.
pub proof fn lemma_merge_comm(a: u32, b: u32)
    ensures
        (a | b) == (b | a),
{
    assert((a | b) == (b | a)) by (bit_vector);
}

/// Merging a tag set with itself changes nothing.
pub proof fn lemma_merge_idem(a: u32)
    ensures
        (a | a) == a,
{
    assert((a | a) == a) by (bit_vector);
}

/// The union of two well-formed masks is well formed.
pub proof fn lemma_union_keeps_wf(a: u32, b: u32)
    ensures
        mask_wf(a) && mask_wf(b) ==> mask_wf(a | b),
{
    assert(a < 0x2000 && b < 0x2000 ==> (a | b) < 0x2000) by (bit_vector);
}

/// Removing tags from a well-formed mask keeps it well formed.
pub proof fn lemma_difference_keeps_wf(a: u32, b: u32)
    ensures
        mask_wf(a) ==> mask_wf(a & !b),
{
    assert(a < 0x2000 ==> (a & !b) < 0x2000) by (bit_vector);
}

} // verus!
