use vstd::prelude::*;
use crate::bytestr::{spec_find, find_subslice, bytes_eq, lemma_spec_find_characterizes};
use crate::catalog::{alias_tag, resolve_bytes};
use crate::tags::{mask_wf, tag_mask, lemma_union_keeps_wf, TagSet};

verus! {

use vstd::pervasive::VecAdditionalExecFns;
use vstd::slice::slice_to_vec;
use vstd::string::StringSliceAdditionalSpecFns;
use vstd::string::StringExecFns;
use vstd::utf8::{valid_utf8, encode_utf8, is_char_boundary, valid_first_scalar,
    length_of_first_scalar, pop_first_scalar, encode_utf8_valid_utf8, valid_utf8_split,
    is_char_boundary_iff_not_is_continuation_byte, is_char_boundary_start_end_of_seq};

// Byte values below are ASCII: 123 `{`, 124 `|`, 125 `}`, 46 `.`, 38 `&`,
// 60 `<`, 62 `>`, 45 `-`, and the letters named in each comment.
//
// The whitespace and digit classes, and token trimming, are deliberately
// read as ASCII.  Every structural character of the markup grammar and
// every alias token is ASCII, so a token touched by an exotic Unicode
// space or digit could never resolve anyway; the choice affects at most
// which unrecognized candidates the diagnostic tally files, and under
// which spelling.

/// ASCII whitespace, accepted between a template opener and its token and
/// trimmed from a token's ends: space, tab, line feed, vertical tab, form
/// feed, carriage return.  Unicode-only spaces are deliberately not
/// whitespace here (see the module note above).
pub open spec fn is_space(b: u8) -> bool {
    b == 32 || b == 9 || b == 10 || b == 11 || b == 12 || b == 13
}

/// A byte that ends a candidate token: pipe, either brace, dot, ampersand,
/// or an ASCII digit.  Unicode-only digits deliberately do not stop a
/// token (see the module note above).
pub open spec fn is_stopper(b: u8) -> bool {
    b == 124 || b == 123 || b == 125 || b == 46 || b == 38 || (48 <= b && b <= 57)
}

/// First position at or after `j` holding a non-whitespace byte, or the end.
pub open spec fn ws_end(b: Seq<u8>, j: int) -> int
    decreases b.len() - j,
{
    if 0 <= j < b.len() && is_space(b[j]) {
        ws_end(b, j + 1)
    } else {
        j
    }
}

/// First position at or after `j` holding a stopper byte, or the end.
pub open spec fn run_end(b: Seq<u8>, j: int) -> int
    decreases b.len() - j,
{
    if 0 <= j < b.len() && !is_stopper(b[j]) {
        run_end(b, j + 1)
    } else {
        j
    }
}

/// Start of the trailing-whitespace run of `b[..j]`: the least position
/// such that everything from it up to `j` is whitespace.
pub open spec fn rtrim_end(b: Seq<u8>, j: int) -> int
    decreases j,
{
    if 0 < j <= b.len() && is_space(b[j - 1]) {
        rtrim_end(b, j - 1)
    } else {
        j
    }
}

/// The token with leading and trailing ASCII whitespace removed.
pub open spec fn trimmed(t: Seq<u8>) -> Seq<u8> {
    let l = ws_end(t, 0);
    let r = rtrim_end(t, t.len() as int);
    if l < r {
        t.subrange(l, r)
    } else {
        Seq::empty()
    }
}

pub proof fn lemma_ws_end_bounds(b: Seq<u8>, j: int)
    requires
        0 <= j <= b.len(),
    ensures
        j <= ws_end(b, j) <= b.len(),
    decreases b.len() - j,
{
    if j < b.len() && is_space(b[j]) {
        lemma_ws_end_bounds(b, j + 1);
    }
}

pub proof fn lemma_run_end_bounds(b: Seq<u8>, j: int)
    requires
        0 <= j <= b.len(),
    ensures
        j <= run_end(b, j) <= b.len(),
    decreases b.len() - j,
{
    if j < b.len() && !is_stopper(b[j]) {
        lemma_run_end_bounds(b, j + 1);
    }
}

pub proof fn lemma_rtrim_end_bounds(b: Seq<u8>, j: int)
    requires
        0 <= j <= b.len(),
    ensures
        0 <= rtrim_end(b, j) <= j,
    decreases j,
{
    if 0 < j && is_space(b[j - 1]) {
        lemma_rtrim_end_bounds(b, j - 1);
    }
}

/// Length of the recognized language prefix at position `j` of the body:
/// 3 for `en-`, 8 for `head|en|`, 0 when neither is there.
pub open spec fn prefix_len_at(b: Seq<u8>, j: int) -> int {
    if j >= 0 && j + 3 <= b.len() && b[j] == 101 && b[j + 1] == 110 && b[j + 2] == 45 {
        3
    } else if j >= 0 && j + 8 <= b.len() && b[j] == 104 && b[j + 1] == 101 && b[j + 2] == 97 && b[j
        + 3] == 100 && b[j + 4] == 124 && b[j + 5] == 101 && b[j + 6] == 110 && b[j + 7] == 124 {
        8
    } else {
        0
    }
}

/// Whether a candidate template invocation begins at position `i`: the
/// opener `{{`, optional whitespace, then a recognized language prefix
/// followed by at least one non-stopper byte.
pub open spec fn cand_at(b: Seq<u8>, i: int) -> bool {
    &&& 0 <= i
    &&& i + 2 <= b.len()
    &&& b[i] == 123
    &&& b[i + 1] == 123
    &&& {
        let j = ws_end(b, i + 2);
        let l = prefix_len_at(b, j);
        l > 0 && j + l < b.len() && !is_stopper(b[j + l])
    }
}

/// End of the candidate token that begins at position `i`.
pub open spec fn cand_end(b: Seq<u8>, i: int) -> int {
    let j = ws_end(b, i + 2);
    run_end(b, j + prefix_len_at(b, j))
}

/// The candidate token itself: the language prefix and every following
/// byte up to the first stopper.
pub open spec fn cand_token(b: Seq<u8>, i: int) -> Seq<u8> {
    b.subrange(ws_end(b, i + 2), cand_end(b, i))
}

proof fn lemma_cand_end_bounds(b: Seq<u8>, i: int)
    requires
        cand_at(b, i),
    ensures
        i < cand_end(b, i) <= b.len(),
{
    lemma_ws_end_bounds(b, i + 2);
    let j = ws_end(b, i + 2);
    let l = prefix_len_at(b, j);
    lemma_run_end_bounds(b, j + l);
    assert(run_end(b, j + l) == run_end(b, j + l + 1)) by {
        assert(!is_stopper(b[j + l]));
    }
    lemma_run_end_bounds(b, j + l + 1);
}

/// The bit contributed by one raw candidate token: the tag's bit when the
/// trimmed token resolves against the alias table, nothing otherwise.
pub open spec fn resolved_bit(token: Seq<u8>) -> u32 {
    match alias_tag(trimmed(token)) {
        Some(t) => tag_mask(t),
        None => 0u32,
    }
}

/// The tag mask accumulated by scanning the body from position `i` with
/// bits `acc` already collected: every candidate token is trimmed and
/// resolved, and recognized aliases contribute their tag's bit.
pub open spec fn scan_mask(b: Seq<u8>, i: int, acc: u32) -> u32
    decreases b.len() - i + 1,
        via scan_mask_dec
{
    if i < 0 || i + 2 > b.len() {
        acc
    } else if cand_at(b, i) {
        scan_mask(b, cand_end(b, i), acc | resolved_bit(cand_token(b, i)))
    } else {
        scan_mask(b, i + 1, acc)
    }
}

#[via_fn]
proof fn scan_mask_dec(b: Seq<u8>, i: int, acc: u32) {
    if !(i < 0 || i + 2 > b.len()) && cand_at(b, i) {
        lemma_cand_end_bounds(b, i);
    }
}

/// One more sighting of token `k` in a frequency tally; counts saturate at
/// the top of the counter range.
pub open spec fn bumped(m: Map<Seq<u8>, u64>, k: Seq<u8>) -> Map<Seq<u8>, u64> {
    let c: u64 = if m.contains_key(k) {
        m[k]
    } else {
        0u64
    };
    m.insert(
        k,
        if c < 0xFFFF_FFFF_FFFF_FFFFu64 {
            (c + 1) as u64
        } else {
            c
        },
    )
}

/// The frequency tally accumulated by scanning the body from position `i`
/// starting from tally `m`: every candidate token, resolved or not, is
/// trimmed and counted once per sighting.
pub open spec fn scan_tally(b: Seq<u8>, i: int, m: Map<Seq<u8>, u64>) -> Map<Seq<u8>, u64>
    decreases b.len() - i + 1,
        via scan_tally_dec
{
    if i < 0 || i + 2 > b.len() {
        m
    } else if cand_at(b, i) {
        scan_tally(b, cand_end(b, i), bumped(m, trimmed(cand_token(b, i))))
    } else {
        scan_tally(b, i + 1, m)
    }
}

#[via_fn]
proof fn scan_tally_dec(b: Seq<u8>, i: int, m: Map<Seq<u8>, u64>) {
    if !(i < 0 || i + 2 > b.len()) && cand_at(b, i) {
        lemma_cand_end_bounds(b, i);
    }
}

/// Whether the title marker `<title>` occurs at position `i`.
pub open spec fn title_marker_at(p: Seq<u8>, i: int) -> bool {
    &&& 0 <= i
    &&& i + 7 <= p.len()
    &&& p[i] == 60  // <
    &&& p[i + 1] == 116  // t
    &&& p[i + 2] == 105  // i
    &&& p[i + 3] == 116  // t
    &&& p[i + 4] == 108  // l
    &&& p[i + 5] == 101  // e
    &&& p[i + 6] == 62  // >
}

/// First position at or after `i` where a title is found: the marker
/// immediately followed by at least one byte other than `<`.
pub open spec fn find_title(p: Seq<u8>, i: int) -> Option<int>
    decreases p.len() - i + 1,
{
    if i < 0 || i + 8 > p.len() {
        None
    } else if title_marker_at(p, i) && p[i + 7] != 60 {
        Some(i)
    } else {
        find_title(p, i + 1)
    }
}

/// A found title position carries the marker and a following title byte.
pub proof fn lemma_find_title_characterizes(p: Seq<u8>, i: int)
    requires
        0 <= i,
    ensures
        find_title(p, i) matches Some(t) ==> i <= t && t + 8 <= p.len() && title_marker_at(p, t)
            && p[t + 7] != 60,
    decreases p.len() - i + 1,
{
    if i < 0 || i + 8 > p.len() {
    } else if title_marker_at(p, i) && p[i + 7] != 60 {
    } else {
        lemma_find_title_characterizes(p, i + 1);
    }
}

/// First position at or after `j` holding `<`, or the end.
pub open spec fn lt_end(p: Seq<u8>, j: int) -> int
    decreases p.len() - j,
{
    if 0 <= j < p.len() && p[j] != 60 {
        lt_end(p, j + 1)
    } else {
        j
    }
}

proof fn lemma_lt_end_bounds(p: Seq<u8>, j: int)
    requires
        0 <= j <= p.len(),
    ensures
        j <= lt_end(p, j) <= p.len(),
    decreases p.len() - j,
{
    if j < p.len() && p[j] != 60 {
        lemma_lt_end_bounds(p, j + 1);
    }
}

/// The page's title bytes: the maximal nonempty run of non-`<` bytes after
/// the first title marker that is followed by such a byte; absent when no
/// title can be found.
pub open spec fn title_of(p: Seq<u8>) -> Option<Seq<u8>> {
    match find_title(p, 0) {
        Some(i) => Some(p.subrange(i + 7, lt_end(p, i + 7))),
        None => None,
    }
}

/// The body-opening marker `<text`.
pub open spec fn text_marker() -> Seq<u8> {
    seq![60u8, 116u8, 101u8, 120u8, 116u8]
}

/// The position just after the first occurrence of the body-opening marker,
/// or absent when the page has no article body.
pub open spec fn body_start(p: Seq<u8>) -> Option<int> {
    match spec_find(p, text_marker(), 0) {
        Some(i) => Some(i + 5),
        None => None,
    }
}

/// One parsed page, transient between extraction and aggregation.
pub struct PageInfo {
    /// The page's title, as captured from the title element.
    pub title: String,
    /// Every tag whose alias was seen in the page's body.
    pub tags: TagSet,
}

fn is_space_byte(b: u8) -> (r: bool)
    ensures
        r == is_space(b),
{
    b == 32 || b == 9 || b == 10 || b == 11 || b == 12 || b == 13
}

fn is_stopper_byte(b: u8) -> (r: bool)
    ensures
        r == is_stopper(b),
{
    b == 124 || b == 123 || b == 125 || b == 46 || b == 38 || (48 <= b && b <= 57)
}

fn ws_end_from(b: &[u8], j: usize) -> (r: usize)
    requires
        j <= b@.len(),
    ensures
        r == ws_end(b@, j as int),
        j <= r <= b@.len(),
{
    let mut i = j;
    while i < b.len() && is_space_byte(b[i])
        invariant
            j <= i <= b@.len(),
            ws_end(b@, j as int) == ws_end(b@, i as int),
        decreases b@.len() - i,
    {
        i = i + 1;
    }
    i
}

fn run_end_from(b: &[u8], j: usize) -> (r: usize)
    requires
        j <= b@.len(),
    ensures
        r == run_end(b@, j as int),
        j <= r <= b@.len(),
{
    let mut i = j;
    while i < b.len() && !is_stopper_byte(b[i])
        invariant
            j <= i <= b@.len(),
            run_end(b@, j as int) == run_end(b@, i as int),
        decreases b@.len() - i,
    {
        i = i + 1;
    }
    i
}

fn rtrim_end_from(b: &[u8], j: usize) -> (r: usize)
    requires
        j <= b@.len(),
    ensures
        r == rtrim_end(b@, j as int),
        r <= j,
{
    let mut i = j;
    while i > 0 && is_space_byte(b[i - 1])
        invariant
            i <= j <= b@.len(),
            rtrim_end(b@, j as int) == rtrim_end(b@, i as int),
        decreases i,
    {
        i = i - 1;
    }
    i
}

/// The frequency map described by parallel key and count columns, later
/// entries taking precedence (the columns in use hold distinct keys).
pub open spec fn tally_map(keys: Seq<Vec<u8>>, counts: Seq<u64>) -> Map<Seq<u8>, u64>
    decreases keys.len(),
{
    if keys.len() == 0 || counts.len() == 0 {
        Map::empty()
    } else {
        tally_map(keys.drop_last(), counts.drop_last()).insert(keys.last()@, counts.last())
    }
}

/// How often each raw candidate token was sighted while scanning pages:
/// a build-time diagnostic that supports alias-table maintenance.
pub struct TokenTally {
    keys: Vec<Vec<u8>>,
    counts: Vec<u64>,
}

impl View for TokenTally {
    type V = Map<Seq<u8>, u64>;

    closed spec fn view(&self) -> Map<Seq<u8>, u64> {
        tally_map(self.keys@, self.counts@)
    }
}

proof fn lemma_tally_map_get(keys: Seq<Vec<u8>>, counts: Seq<u64>, i: int)
    requires
        keys.len() == counts.len(),
        0 <= i < keys.len(),
        forall|a: int, b: int| 0 <= a < b < keys.len() ==> keys[a]@ != keys[b]@,
    ensures
        tally_map(keys, counts).contains_key(keys[i]@),
        tally_map(keys, counts)[keys[i]@] == counts[i],
    decreases keys.len(),
{
    if i < keys.len() - 1 {
        lemma_tally_map_get(keys.drop_last(), counts.drop_last(), i);
    }
}

proof fn lemma_tally_map_absent(keys: Seq<Vec<u8>>, counts: Seq<u64>, k: Seq<u8>)
    requires
        keys.len() == counts.len(),
        forall|i: int| 0 <= i < keys.len() ==> keys[i]@ != k,
    ensures
        !tally_map(keys, counts).contains_key(k),
    decreases keys.len(),
{
    if keys.len() != 0 {
        lemma_tally_map_absent(keys.drop_last(), counts.drop_last(), k);
    }
}

proof fn lemma_tally_map_update(keys: Seq<Vec<u8>>, counts: Seq<u64>, i: int, c: u64)
    requires
        keys.len() == counts.len(),
        0 <= i < keys.len(),
        forall|a: int, b: int| 0 <= a < b < keys.len() ==> keys[a]@ != keys[b]@,
    ensures
        tally_map(keys, counts.update(i, c)) == tally_map(keys, counts).insert(keys[i]@, c),
    decreases keys.len(),
{
    let updated = counts.update(i, c);
    if i == keys.len() - 1 {
        assert(updated.drop_last() =~= counts.drop_last());
        assert(tally_map(keys, counts.update(i, c)) =~= tally_map(keys, counts).insert(
            keys[i]@,
            c,
        ));
    } else {
        assert(updated.drop_last() =~= counts.drop_last().update(i, c));
        lemma_tally_map_update(keys.drop_last(), counts.drop_last(), i, c);
        assert(keys[i]@ != keys.last()@);
        assert(tally_map(keys, counts.update(i, c)) =~= tally_map(keys, counts).insert(
            keys[i]@,
            c,
        ));
    }
}

impl TokenTally {
    /// How many distinct tokens have been recorded.
    pub closed spec fn token_count(&self) -> nat {
        self.keys@.len()
    }

    /// The `i`-th distinct token, in order of first sighting.
    pub closed spec fn token_at(&self, i: int) -> Seq<u8> {
        self.keys@[i]@
    }

    /// The key columns hold as many entries as the count column, and no key
    /// occurs twice.
    pub closed spec fn wf(&self) -> bool {
        &&& self.keys@.len() == self.counts@.len()
        &&& forall|a: int, b: int|
            0 <= a < b < self.keys@.len() ==> self.keys@[a]@ != self.keys@[b]@
    }

    /// An empty tally.
    pub fn new() -> (r: Self)
        ensures
            r.wf(),
            r@ == Map::<Seq<u8>, u64>::empty(),
    {
        TokenTally { keys: Vec::new(), counts: Vec::new() }
    }

    /// Record one more sighting of `key`.
    pub fn bump(&mut self, key: &[u8])
        requires
            old(self).wf(),
        ensures
            final(self).wf(),
            final(self)@ == bumped(old(self)@, key@),
            old(self)@.contains_key(key@) ==> final(self).token_count() == old(
                self,
            ).token_count(),
            !old(self)@.contains_key(key@) ==> final(self).token_count() == old(
                self,
            ).token_count() + 1 && final(self).token_at(old(self).token_count() as int) == key@,
            forall|i: int|
                0 <= i < old(self).token_count() ==> final(self).token_at(i) == old(
                    self,
                ).token_at(i),
    {
        let mut idx: usize = 0;
        while idx < self.keys.len()
            invariant
                idx <= self.keys@.len(),
                *self == *old(self),
                self.wf(),
                forall|j: int| 0 <= j < idx ==> self.keys@[j]@ != key@,
            decreases self.keys@.len() - idx,
        {
            if bytes_eq(self.keys[idx].as_slice(), key) {
                let c = self.counts[idx];
                let nc = if c < u64::MAX {
                    c + 1
                } else {
                    c
                };
                proof {
                    lemma_tally_map_get(self.keys@, self.counts@, idx as int);
                    lemma_tally_map_update(self.keys@, self.counts@, idx as int, nc);
                }
                self.counts.set(idx, nc);
                return ;
            }
            idx = idx + 1;
        }
        proof {
            lemma_tally_map_absent(self.keys@, self.counts@, key@);
        }
        let kv = slice_to_vec(key);
        self.keys.push(kv);
        self.counts.push(1);
        proof {
            assert(self.keys@.drop_last() =~= old(self).keys@);
            assert(self.counts@.drop_last() =~= old(self).counts@);
        }
    }

    /// How many distinct tokens have been sighted.
    pub fn len(&self) -> (r: usize)
        requires
            self.wf(),
        ensures
            r == self.token_count(),
    {
        self.keys.len()
    }

    /// The `i`-th recorded token, in order of first sighting, and its count.
    pub fn pair_at(&self, i: usize) -> (r: (&Vec<u8>, u64))
        requires
            self.wf(),
            i < self.token_count(),
        ensures
            r.0@ == self.token_at(i as int),
            self@.contains_key(r.0@),
            self@[r.0@] == r.1,
    {
        proof {
            lemma_tally_map_get(self.keys@, self.counts@, i as int);
        }
        (&self.keys[i], self.counts[i])
    }
}

/// Length of the recognized language prefix at position `j`, 0 when none.
fn prefix_len_from(b: &[u8], j: usize) -> (l: usize)
    requires
        j <= b@.len(),
    ensures
        l == prefix_len_at(b@, j as int),
        l > 0 ==> j + l <= b@.len(),
{
    // en-
    if b.len() - j >= 3 && b[j] == 101 && b[j + 1] == 110 && b[j + 2] == 45 {
        3
    } else if b.len() - j >= 8 && b[j] == 104 && b[j + 1] == 101 && b[j + 2] == 97 && b[j + 3]
        == 100 && b[j + 4] == 124 && b[j + 5] == 101 && b[j + 6] == 110 && b[j + 7] == 124 {
        // head|en|
        8
    } else {
        0
    }
}

/// The bitwise identity of the empty mask.
proof fn lemma_or_zero(a: u32)
    ensures
        a | 0u32 == a,
{
    assert(a | 0u32 == a) by (bit_vector);
}

/// A resolved bit is a defined tag bit or nothing.
proof fn lemma_resolved_bit_wf(token: Seq<u8>)
    ensures
        mask_wf(resolved_bit(token)),
{
}

/// Scan one page body for candidate tokens: the returned mask packs every
/// recognized tag, and the tally records every trimmed candidate token.
fn scan_body(b: &[u8], tally: &mut TokenTally) -> (mask: u32)
    requires
        old(tally).wf(),
    ensures
        final(tally).wf(),
        final(tally)@ == scan_tally(b@, 0, old(tally)@),
        mask == scan_mask(b@, 0, 0u32),
        mask_wf(mask),
{
    let mut acc: u32 = 0;
    let mut i: usize = 0;
    while i < b.len() && b.len() - i >= 2
        invariant
            old(tally).wf(),
            tally.wf(),
            i <= b@.len(),
            mask_wf(acc),
            scan_mask(b@, 0, 0u32) == scan_mask(b@, i as int, acc),
            scan_tally(b@, 0, old(tally)@) == scan_tally(b@, i as int, tally@),
        decreases b@.len() - i,
    {
        if b[i] == 123 && b[i + 1] == 123 {
            let j = ws_end_from(b, i + 2);
            let l = prefix_len_from(b, j);
            if l > 0 && j + l < b.len() && !is_stopper_byte(b[j + l]) {
                proof {
                    assert(cand_at(b@, i as int));
                    lemma_cand_end_bounds(b@, i as int);
                }
                let e = run_end_from(b, j + l);
                proof {
                    assert(e == cand_end(b@, i as int));
                    assert(j <= e) by {
                        lemma_run_end_bounds(b@, (j + l) as int);
                    }
                }
                let tok = &b[j..e];
                let tl = ws_end_from(tok, 0);
                let tr = rtrim_end_from(tok, tok.len());
                let trimmed_tok: &[u8] = if tl < tr {
                    &tok[tl..tr]
                } else {
                    &tok[0..0]
                };
                proof {
                    assert(tok@ == cand_token(b@, i as int));
                    if tl < tr {
                        assert(trimmed_tok@ == trimmed(tok@));
                    } else {
                        assert(trimmed_tok@ =~= trimmed(tok@));
                    }
                }
                tally.bump(trimmed_tok);
                let ghost old_acc = acc;
                match resolve_bytes(trimmed_tok) {
                    Some(t) => {
                        proof {
                            lemma_resolved_bit_wf(tok@);
                            lemma_union_keeps_wf(acc, resolved_bit(tok@));
                        }
                        acc = acc | t.to_mask();
                    },
                    None => {
                        proof {
                            lemma_or_zero(acc);
                        }
                    },
                }
                proof {
                    assert(acc == old_acc | resolved_bit(cand_token(b@, i as int)));
                }
                i = e;
            } else {
                proof {
                    assert(!cand_at(b@, i as int));
                }
                i = i + 1;
            }
        } else {
            proof {
                assert(!cand_at(b@, i as int));
            }
            i = i + 1;
        }
    }
    acc
}

/// First position where the title pattern matches, scanning from the start.
fn find_title_pos(p: &[u8]) -> (r: Option<usize>)
    ensures
        match r {
            Some(i) => find_title(p@, 0) == Some(i as int),
            None => find_title(p@, 0) is None,
        },
{
    if p.len() < 8 {
        return None;
    }
    let mut i: usize = 0;
    while i <= p.len() - 8
        invariant
            p@.len() >= 8,
            i <= p@.len(),
            find_title(p@, 0) == find_title(p@, i as int),
        decreases p@.len() - i,
    {
        if p[i] == 60 && p[i + 1] == 116 && p[i + 2] == 105 && p[i + 3] == 116 && p[i + 4] == 108
            && p[i + 5] == 101 && p[i + 6] == 62 && p[i + 7] != 60 {
            return Some(i);
        }
        i = i + 1;
    }
    None
}

/// First position at or after `j` holding `<`, or the end.
fn lt_end_from(p: &[u8], j: usize) -> (r: usize)
    requires
        j <= p@.len(),
    ensures
        r == lt_end(p@, j as int),
        j <= r <= p@.len(),
        r == p@.len() || p@[r as int] == 60,
{
    let mut i = j;
    while i < p.len() && p[i] != 60
        invariant
            j <= i <= p@.len(),
            lt_end(p@, j as int) == lt_end(p@, i as int),
        decreases p@.len() - i,
    {
        i = i + 1;
    }
    i
}

/// The title bytes of a valid UTF-8 page are themselves valid UTF-8: the
/// capture starts right after the ASCII `>` of the title marker, so on a
/// character boundary, and ends at an ASCII `<` or at the page's end,
/// another boundary.
proof fn lemma_title_bytes_valid(p: Seq<u8>, ti: int, te: int)
    requires
        valid_utf8(p),
        title_marker_at(p, ti),
        ti + 7 <= te <= p.len(),
        te == p.len() || p[te] == 60,
    ensures
        valid_utf8(p.subrange(ti + 7, te)),
{
    // the marker's closing `>` (62) is no continuation byte, so the title
    // starts at a character boundary and `>` is a one-byte scalar
    is_char_boundary_iff_not_is_continuation_byte(p, ti + 6);
    valid_utf8_split(p, ti + 6);
    let s = p.subrange(ti + 6, p.len() as int);
    assert(s[0] == 62);
    assert(valid_first_scalar(s));
    assert(length_of_first_scalar(s) == 1);
    let t = p.subrange(ti + 7, p.len() as int);
    assert(pop_first_scalar(s) =~= t);
    assert(valid_utf8(t));
    let k = te - (ti + 7);
    if te == p.len() {
        is_char_boundary_start_end_of_seq(t);
    } else {
        assert(t[k] == p[te]);
        is_char_boundary_iff_not_is_continuation_byte(t, k);
    }
    valid_utf8_split(t, k);
    assert(t.subrange(0, k) =~= p.subrange(ti + 7, te));
}

/// Relies on `String::from_utf8`: it succeeds exactly on valid UTF-8 input
/// and the returned string holds exactly the given bytes.
#[verifier::external_body]
fn bytes_to_string(v: Vec<u8>) -> (r: Option<String>)
    ensures
        r is Some <==> valid_utf8(v@),
        r matches Some(s) ==> encode_utf8(s@) == v@,
{
    String::from_utf8(v).ok()
}

/// Extract one page: find its title, locate the article body, scan the body
/// for tag evidence, and append the resulting record.  A page without a
/// title is an error; a page without a body is skipped silently; the tally
/// records every candidate token of a scanned body, recognized or not.
pub fn parse_page(tally: &mut TokenTally, add_to: &mut Vec<PageInfo>, page_contents: &str) -> (r:
    Result<(), String>)
    requires
        old(tally).wf(),
    ensures
        final(tally).wf(),
        ({
            let p = page_contents.spec_bytes();
            match title_of(p) {
                None => {
                    &&& r is Err
                    &&& final(add_to)@ == old(add_to)@
                    &&& final(tally)@ == old(tally)@
                },
                Some(tb) => {
                    match body_start(p) {
                        None => {
                            &&& r is Ok
                            &&& final(add_to)@ == old(add_to)@
                            &&& final(tally)@ == old(tally)@
                        },
                        Some(s) => {
                            let body = p.subrange(s, p.len() as int);
                            &&& r is Ok
                            &&& final(tally)@ == scan_tally(body, 0, old(tally)@)
                            &&& final(add_to)@.len() == old(add_to)@.len() + 1
                            &&& final(add_to)@.drop_last() == old(add_to)@
                            &&& encode_utf8(final(add_to)@.last().title@) == tb
                            &&& final(add_to)@.last().tags.mask() == scan_mask(body, 0, 0u32)
                            &&& final(add_to)@.last().tags.wf()
                        },
                    }
                },
            }
        }),
        r matches Err(e) ==> e@ == "Failed to find title for page"@,
{
    let p = page_contents.as_bytes();
    // records that the page's byte length fits the pointer width, which
    // bounds the positions computed below
    let _len = p.len();
    let ti = match find_title_pos(p) {
        None => {
            return Err(String::from_str("Failed to find title for page"));
        },
        Some(ti) => ti,
    };
    proof {
        lemma_find_title_characterizes(p@, 0);
    }
    let te = lt_end_from(p, ti + 7);
    let title_slice = &p[ti + 7..te];
    let title_vec = slice_to_vec(title_slice);
    proof {
        encode_utf8_valid_utf8(page_contents@);
        lemma_title_bytes_valid(p@, ti as int, te as int);
    }
    let title = match bytes_to_string(title_vec) {
        None => {
            // unreachable: the title bytes were just proven valid UTF-8
            proof {
                assert(false);
            }
            return Err(String::from_str("Failed to find title for page"));
        },
        Some(t) => t,
    };
    let marker: Vec<u8> = vec![60u8, 116u8, 101u8, 120u8, 116u8];
    proof {
        assert(marker@ =~= text_marker());
    }
    let m = match find_subslice(p, marker.as_slice(), 0) {
        None => {
            return Ok(());
        },
        Some(m) => m,
    };
    proof {
        lemma_spec_find_characterizes(p@, text_marker(), 0);
    }
    let body = &p[m + 5..p.len()];
    let mask = scan_body(body, tally);
    let tags = TagSet::from_mask(mask);
    proof {
        assert(mask & 0x1FFF == mask) by (bit_vector)
            requires
                mask < 0x2000,
        ;
    }
    add_to.push(PageInfo { title, tags });
    proof {
        assert(final(add_to)@.drop_last() =~= old(add_to)@);
    }
    Ok(())
}

} // verus!
