use vstd::prelude::*;
use crate::bytestr::{lex_lt, lemma_lex_lt_neq};
use crate::tags::{tag_mask, Tag, TagSet};

verus! {

use vstd::string::StringSliceAdditionalSpecFns;
use vstd::string::StringExecFns;
use vstd::utf8::encode_utf8;

#[verifier::external_type_specification]
#[verifier::external_body]
#[verifier::reject_recursive_types(W)]
pub struct ExFstMapBuilder<W>(fst::MapBuilder<W>);

#[verifier::external_type_specification]
#[verifier::external_body]
#[verifier::reject_recursive_types(D)]
pub struct ExFstMap<D>(fst::Map<D>);

#[verifier::external_type_specification]
#[verifier::external_body]
pub struct ExFstError(fst::Error);

/// The key-value pairs an in-memory builder has accepted so far, in
/// insertion order.
pub uninterp spec fn builder_entries(b: fst::MapBuilder<Vec<u8>>) -> Seq<(Seq<u8>, u64)>;

/// The key-value pairs a loaded map answers queries from.  Only meaningful
/// for maps whose backing bytes are a genuine artifact: on other bytes the
/// engine documents that queries may panic or answer wrongly.
pub uninterp spec fn map_entries(m: fst::Map<Vec<u8>>) -> Map<Seq<u8>, u64>;

/// Whether the bytes are a genuine serialized artifact: exactly what some
/// run of the in-memory builder produced.  The engine's load check is
/// deliberately shallow and does not decide this, so nothing below claims
/// that it does.
pub uninterp spec fn genuine_artifact(bytes: Seq<u8>) -> bool;

/// The key-value pairs a genuine artifact encodes; unspecified on any
/// other bytes.
pub uninterp spec fn artifact_contents(bytes: Seq<u8>) -> Map<Seq<u8>, u64>;

/// Whether a loaded map's backing bytes are a genuine artifact.  The load
/// call stores the given bytes unchanged, so this is a property of the map
/// value itself.
pub uninterp spec fn map_genuine(m: fst::Map<Vec<u8>>) -> bool;

/// Whether `key` may follow the entries already accepted: any key is
/// accepted first, afterwards only keys strictly above the last one in
/// byte order.
pub open spec fn can_insert(entries: Seq<(Seq<u8>, u64)>, key: Seq<u8>) -> bool {
    entries.len() == 0 || lex_lt(entries.last().0, key)
}

/// The finite map described by an entry sequence, later entries winning.
pub open spec fn entries_map(entries: Seq<(Seq<u8>, u64)>) -> Map<Seq<u8>, u64>
    decreases entries.len(),
{
    if entries.len() == 0 {
        Map::empty()
    } else {
        entries_map(entries.drop_last()).insert(entries.last().0, entries.last().1)
    }
}

/// Keys strictly ascend in byte order, so no key repeats.
pub open spec fn strictly_ascending(entries: Seq<(Seq<u8>, u64)>) -> bool {
    forall|i: int, j: int| 0 <= i < j < entries.len() ==> lex_lt(entries[i].0, entries[j].0)
}

/// Relies on `fst::MapBuilder::memory`: a fresh in-memory builder holds
/// nothing.
#[verifier::external_body]
fn fst_builder_memory() -> (b: fst::MapBuilder<Vec<u8>>)
    ensures
        builder_entries(b) == Seq::<(Seq<u8>, u64)>::empty(),
{
    fst::MapBuilder::memory()
}

/// Relies on `fst::MapBuilder::insert`: a key strictly greater in byte
/// order than every earlier key is accepted with its value; an out-of-order
/// or duplicate key is refused before anything changes.  Writing to the
/// in-memory buffer cannot fail.
#[verifier::external_body]
fn fst_builder_insert(b: &mut fst::MapBuilder<Vec<u8>>, key: &str, val: u64) -> (r: Result<
    (),
    fst::Error,
>)
    ensures
        r is Ok <==> can_insert(builder_entries(*old(b)), key.spec_bytes()),
        r is Ok ==> builder_entries(*final(b)) == builder_entries(*old(b)).push(
            (key.spec_bytes(), val),
        ),
        r is Err ==> builder_entries(*final(b)) == builder_entries(*old(b)),
{
    b.insert(key, val)
}

/// Relies on `fst::MapBuilder::into_inner`: sealing the in-memory builder
/// yields the serialized artifact — genuine by definition — and the engine
/// documents that it reads back as a map holding exactly the accepted
/// entries.  Flushing the in-memory buffer cannot fail.
#[verifier::external_body]
fn fst_builder_into_inner(b: fst::MapBuilder<Vec<u8>>) -> (r: Vec<u8>)
    ensures
        genuine_artifact(r@),
        artifact_contents(r@) == entries_map(builder_entries(b)),
{
    b.into_inner().unwrap()
}

/// Relies on `fst::MapBuilder::finish`: sealing the in-memory builder
/// flushes an in-memory buffer, which cannot fail.
#[verifier::external_body]
fn fst_builder_finish(b: fst::MapBuilder<Vec<u8>>) -> (r: Result<(), fst::Error>)
    ensures
        r is Ok,
{
    b.finish()
}

/// Relies on `fst::Map::new`: it accepts every genuine artifact and then
/// answers queries with the entries that artifact encodes, keeping the
/// given bytes as the map's backing store.  Its check on other bytes is
/// only a cheap footer test, so nothing is claimed of them: they may load
/// or be refused.
#[verifier::external_body]
fn fst_map_new(data: Vec<u8>) -> (r: Result<fst::Map<Vec<u8>>, fst::Error>)
    ensures
        genuine_artifact(data@) ==> r is Ok,
        r matches Ok(m) ==> (map_genuine(m) <==> genuine_artifact(data@)),
        r matches Ok(m) ==> (genuine_artifact(data@) ==> map_entries(m) == artifact_contents(
            data@,
        )),
{
    fst::Map::new(data)
}

/// Relies on `fst::Fst::verify`: it recomputes the artifact's checksum and
/// compares it with the stored one, scanning the bytes without parsing any
/// node, so it returns normally on any loaded map.  A genuine artifact
/// carries the checksum the builder wrote, so it always passes; corrupted
/// bytes fail in practice, but a checksum collision cannot be ruled out,
/// so nothing is claimed of them.
#[verifier::external_body]
fn fst_map_verify(m: &fst::Map<Vec<u8>>) -> (r: Result<(), fst::Error>)
    ensures
        map_genuine(*m) ==> r is Ok,
{
    m.as_fst().verify()
}

/// Relies on `fst::Map::get`: on a map backed by a genuine artifact it
/// returns the value stored under exactly this key, or absent when the key
/// is not in the map.  On other maps the engine documents that reading may
/// panic, so they are excluded.
#[verifier::external_body]
fn fst_map_get(m: &fst::Map<Vec<u8>>, key: &str) -> (r: Option<u64>)
    requires
        map_genuine(*m),
    ensures
        r == if map_entries(*m).contains_key(key.spec_bytes()) {
            Some(map_entries(*m)[key.spec_bytes()])
        } else {
            None::<u64>
        },
{
    m.get(key)
}

/// Streams `(title, tag set)` pairs, presented in strictly ascending byte
/// order of title, into the compact immutable map artifact.
pub struct TagsBuilder(fst::MapBuilder<Vec<u8>>);

/// The outcome of inserting a run of items one after the other: the
/// entries accepted when the run stops, and whether the whole run was
/// accepted.  A run stops at the first title not strictly above its
/// predecessor keys.
pub open spec fn insert_run(entries: Seq<(Seq<u8>, u64)>, items: Seq<(String, TagSet)>) -> (
    Seq<(Seq<u8>, u64)>,
    bool,
)
    decreases items.len(),
{
    if items.len() == 0 {
        (entries, true)
    } else {
        let key = encode_utf8(items[0].0@);
        if can_insert(entries, key) {
            insert_run(entries.push((key, items[0].1.mask() as u64)), items.skip(1))
        } else {
            (entries, false)
        }
    }
}

impl TagsBuilder {
    /// The entries accepted so far.
    pub closed spec fn entries(&self) -> Seq<(Seq<u8>, u64)> {
        builder_entries(self.0)
    }

    /// A builder that serializes into memory.
    pub fn in_memory() -> (r: Self)
        ensures
            r.entries() == Seq::<(Seq<u8>, u64)>::empty(),
    {
        TagsBuilder(fst_builder_memory())
    }

    /// Store a single tag under `key`, which must come strictly after every
    /// key inserted before it.
    pub fn insert_tag(&mut self, key: &str, tag: &Tag)
        requires
            can_insert(old(self).entries(), key.spec_bytes()),
        ensures
            final(self).entries() == old(self).entries().push(
                (key.spec_bytes(), tag_mask(*tag) as u64),
            ),
    {
        let mask = tag.to_mask();
        match fst_builder_insert(&mut self.0, key, mask as u64) {
            Ok(_) => (),
            Err(_) => (),
        }
    }

    /// Store a tag set under `key`: accepted exactly when `key` comes
    /// strictly after every key inserted before it, refused without effect
    /// otherwise.
    pub fn insert_tag_set(&mut self, key: &str, tag_set: &TagSet) -> (r: Result<(), String>)
        ensures
            r is Ok <==> can_insert(old(self).entries(), key.spec_bytes()),
            r is Ok ==> final(self).entries() == old(self).entries().push(
                (key.spec_bytes(), tag_set.mask() as u64),
            ),
            r is Err ==> final(self).entries() == old(self).entries(),
    {
        let mask = tag_set.to_mask();
        match fst_builder_insert(&mut self.0, key, mask as u64) {
            Ok(_) => Ok(()),
            Err(_) => Err(String::from_str("key not inserted in strictly ascending order")),
        }
    }

    /// Insert each pair in order, stopping at the first title that is not
    /// strictly above its predecessors; an error reports such a stop.
    pub fn extend_iter(&mut self, iter: &Vec<(String, TagSet)>) -> (r: Result<(), String>)
        ensures
            final(self).entries() == insert_run(old(self).entries(), iter@).0,
            r is Ok <==> insert_run(old(self).entries(), iter@).1,
    {
        let mut i: usize = 0;
        proof {
            assert(iter@.skip(0) =~= iter@);
        }
        while i < iter.len()
            invariant
                i <= iter@.len(),
                insert_run(old(self).entries(), iter@) == insert_run(
                    self.entries(),
                    iter@.skip(i as int),
                ),
            decreases iter@.len() - i,
        {
            let key: &String = &iter[i].0;
            let tag_set = &iter[i].1;
            proof {
                assert(iter@.skip(i as int)[0] == iter@[i as int]);
                assert(iter@.skip(i as int).skip(1) =~= iter@.skip(i as int + 1));
            }
            let mask = tag_set.to_mask();
            match fst_builder_insert(&mut self.0, key.as_str(), mask as u64) {
                Ok(_) => (),
                Err(_) => {
                    return Err(String::from_str("key not inserted in strictly ascending order"));
                },
            }
            i = i + 1;
        }
        proof {
            assert(iter@.skip(iter@.len() as int) =~= Seq::<(String, TagSet)>::empty());
        }
        Ok(())
    }

    /// Seal the artifact and discard the serialized bytes.
    pub fn finish(self) -> (r: Result<(), String>)
        ensures
            r is Ok,
    {
        match fst_builder_finish(self.0) {
            Ok(_) => Ok(()),
            Err(_) => Err(String::from_str("could not seal the artifact")),
        }
    }

    /// Seal the artifact and hand out its serialized bytes: a genuine
    /// artifact encoding exactly the accepted entries.
    pub fn into_inner(self) -> (r: Vec<u8>)
        ensures
            genuine_artifact(r@),
            artifact_contents(r@) == entries_map(self.entries()),
    {
        fst_builder_into_inner(self.0)
    }
}

/// Answers point queries against a serialized artifact; immutable after
/// loading.
pub struct TagsLookup(fst::Map<Vec<u8>>);

impl TagsLookup {
    /// The key-value pairs held by the loaded artifact.
    pub closed spec fn entries(&self) -> Map<Seq<u8>, u64> {
        map_entries(self.0)
    }

    /// The loaded bytes are a genuine artifact.  Loading a builder's output
    /// establishes this; queries demand it, since the engine documents that
    /// reading anything else may go wrong.
    pub closed spec fn genuine(&self) -> bool {
        map_genuine(self.0)
    }

    /// Load a serialized artifact.  A genuine artifact always loads and
    /// serves exactly the entries it encodes.  Other bytes are refused with
    /// a load error when either the engine's format check or its checksum
    /// fails; no partial reader is ever produced.
    pub fn new(data: Vec<u8>) -> (r: Result<Self, String>)
        ensures
            genuine_artifact(data@) ==> r is Ok,
            r matches Ok(l) ==> (l.genuine() <==> genuine_artifact(data@)),
            r matches Ok(l) ==> (genuine_artifact(data@) ==> l.entries() == artifact_contents(
                data@,
            )),
            r matches Err(e) ==> e@ == "Invalid TagsLookup: the bytes are not a verified artifact"@,
    {
        let map = match fst_map_new(data) {
            Ok(m) => m,
            Err(_) => {
                return Err(
                    String::from_str("Invalid TagsLookup: the bytes are not a verified artifact"),
                );
            },
        };
        match fst_map_verify(&map) {
            Ok(_) => Ok(TagsLookup(map)),
            Err(_) => Err(
                String::from_str("Invalid TagsLookup: the bytes are not a verified artifact"),
            ),
        }
    }

    /// The tag set stored under exactly this key, or absent: the defined
    /// tag bits of the stored value, case-sensitively keyed.  Only a reader
    /// over a genuine artifact may be queried.
    pub fn get(&self, key: &str) -> (r: Option<TagSet>)
        requires
            self.genuine(),
        ensures
            match r {
                Some(ts) => self.entries().contains_key(key.spec_bytes()) && ts.mask() == (
                self.entries()[key.spec_bytes()] as u32) & 0x1FFF && ts.wf(),
                None => !self.entries().contains_key(key.spec_bytes()),
            },
    {
        match fst_map_get(&self.0, key) {
            Some(v) => Some(TagSet::from_mask(#[verifier::truncate] (v as u32))),
            None => None,
        }
    }
}

/// A well-formed tag mask survives the artifact's value round trip: widened
/// to the stored width on insertion, truncated to the defined tag bits on
/// lookup, it comes back unchanged.  With this, a lookup answers every
/// inserted key with exactly the tag set stored for it.
pub proof fn lemma_mask_value_roundtrip(mask: u32)
    requires
        crate::tags::mask_wf(mask),
    ensures
        (((mask as u64) as u32) & 0x1FFF) == mask,
{
    assert(mask < 0x2000 ==> (((mask as u64) as u32) & 0x1FFF) == mask) by (bit_vector);
}

/// A map built from strictly ascending entries answers every inserted key
/// with exactly the value stored for it, and knows no other key.
pub proof fn lemma_entries_map_exact(entries: Seq<(Seq<u8>, u64)>, key: Seq<u8>)
    requires
        strictly_ascending(entries),
    ensures
        forall|i: int|
            0 <= i < entries.len() && entries[i].0 == key ==> entries_map(entries).contains_key(key)
                && entries_map(entries)[key] == entries[i].1,
        (forall|i: int| 0 <= i < entries.len() ==> entries[i].0 != key) ==> !entries_map(
            entries,
        ).contains_key(key),
    decreases entries.len(),
{
    if entries.len() != 0 {
        let prefix = entries.drop_last();
        assert forall|i: int, j: int| 0 <= i < j < prefix.len() implies lex_lt(
            prefix[i].0,
            prefix[j].0,
        ) by {
            assert(entries[i] == prefix[i]);
            assert(entries[j] == prefix[j]);
        }
        lemma_entries_map_exact(prefix, key);
        assert forall|i: int|
            0 <= i < entries.len() && entries[i].0 == key implies entries_map(
            entries,
        ).contains_key(key) && entries_map(entries)[key] == entries[i].1 by {
            if i < entries.len() - 1 {
                assert(lex_lt(entries[i].0, entries.last().0));
                lemma_lex_lt_neq(entries[i].0, entries.last().0);
                assert(prefix[i] == entries[i]);
            }
        }
    }
}

} // verus!
