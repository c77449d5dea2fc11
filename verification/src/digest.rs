//! The content hashes that mark a record or a list as changed.
//!
//! A record is hashed from bytes that this module lays out itself (its hash
//! field in little-endian order, then each text closed by `0xff`, the order
//! in which `Hash` feeds a record's fields), with std's `DefaultHasher`,
//! whose result vstd states as a function of the bytes written.  So the hash
//! of a record is a stated function of its fields, on every machine.  A whole
//! list is hashed with `sip_hash`, which nothing reads but to see whether the
//! list changed between two rounds.

use vstd::prelude::*;
use vstd::bytes::spec_u64_to_le_bytes;
use vstd::std_specs::hash::DefaultHasherAdditionalSpecFns;
use vstd::utf8::{decode_utf8, encode_utf8};
use std::collections::hash_map::DefaultHasher;

verus! {

/// Hashes `value` with std's `SipHasher` (SipHash-2-4 under the fixed keys
/// 0 and 0), through `std::hash::BuildHasher::hash_one` on a
/// `BuildHasherDefault<SipHasher>`: `value` is fed to the hasher by its
/// `Hash` impl and the hasher's `finish` is returned.
///
/// Nothing is promised of the result: the bytes that `Hash` feeds the hasher
/// hold integers in the machine's byte order and lengths in its word size, so
/// the same value hashes differently on different machines.
#[verifier::external_body]
#[allow(deprecated)]
pub(crate) fn sip_hash<T: std::hash::Hash>(value: &T) -> u64 {
    std::hash::BuildHasher::hash_one(
        &std::hash::BuildHasherDefault::<std::hash::SipHasher>::default(),
        value,
    )
}

/// The writes that hash the texts `texts` of a record: for each text in
/// order, its UTF-8 bytes, then the single byte `0xff` that ends it (as
/// `str`'s `Hash` writes a text).
pub open spec fn text_writes(texts: Seq<Seq<char>>) -> Seq<Seq<u8>>
    decreases texts.len(),
{
    if texts.len() == 0 {
        Seq::empty()
    } else {
        text_writes(texts.drop_last()) + seq![encode_utf8(texts.last()), seq![0xffu8]]
    }
}

/// The writes that hash a record whose hash field holds `hash` and whose
/// texts are `texts`, in the order of the record's fields: the hash as eight
/// little-endian bytes, then the texts.
pub open spec fn record_writes(hash: u64, texts: Seq<Seq<char>>) -> Seq<Seq<u8>> {
    seq![spec_u64_to_le_bytes(hash)] + text_writes(texts)
}

/// The content hash of a record whose hash field holds `hash` and whose
/// texts are `texts`: what a `DefaultHasher` gives after the writes of
/// `record_writes`.
pub open spec fn content_hash(hash: u64, texts: Seq<Seq<char>>) -> u64 {
    DefaultHasher::spec_finish(record_writes(hash, texts))
}

/// The writes of `texts`: two per text, its bytes and the end mark.
pub proof fn lemma_text_writes(texts: Seq<Seq<char>>)
    ensures
        text_writes(texts).len() == 2 * texts.len(),
        forall|i: int|
            0 <= i < texts.len() ==> {
                &&& #[trigger] text_writes(texts)[2 * i] == encode_utf8(texts[i])
                &&& text_writes(texts)[2 * i + 1] == seq![0xffu8]
            },
    decreases texts.len(),
{
    if texts.len() > 0 {
        lemma_text_writes(texts.drop_last());
        let w = text_writes(texts);
        let p = text_writes(texts.drop_last());
        assert forall|i: int| 0 <= i < texts.len() implies {
            &&& #[trigger] w[2 * i] == encode_utf8(texts[i])
            &&& w[2 * i + 1] == seq![0xffu8]
        } by {
            if i < texts.len() - 1 {
                assert(w[2 * i] == p[2 * i]);
                assert(w[2 * i + 1] == p[2 * i + 1]);
                assert(texts.drop_last()[i] == texts[i]);
            }
        }
    }
}

/// Different records feed the hasher different writes: the writes of a
/// record give back its hash field and each of its texts.  So the content
/// hash of a record is a function of all of its fields, and two records
/// hash alike only where the hasher maps two different write sequences to
/// one value.
pub proof fn lemma_record_writes_injective(
    hash1: u64,
    texts1: Seq<Seq<char>>,
    hash2: u64,
    texts2: Seq<Seq<char>>,
)
    requires
        record_writes(hash1, texts1) == record_writes(hash2, texts2),
    ensures
        hash1 == hash2,
        texts1 == texts2,
{
    broadcast use vstd::utf8::encode_utf8_decode_utf8;
    vstd::bytes::lemma_auto_spec_u64_to_from_le_bytes();
    let w1 = record_writes(hash1, texts1);
    let w2 = record_writes(hash2, texts2);
    assert(w1[0] == spec_u64_to_le_bytes(hash1));
    assert(w2[0] == spec_u64_to_le_bytes(hash2));
    lemma_text_writes(texts1);
    lemma_text_writes(texts2);
    let t1 = text_writes(texts1);
    let t2 = text_writes(texts2);
    assert(t1 =~= w1.drop_first());
    assert(t2 =~= w2.drop_first());
    assert forall|i: int| 0 <= i < texts1.len() implies texts1[i] == texts2[i] by {
        assert(t1[2 * i] == t2[2 * i]);
        assert(decode_utf8(encode_utf8(texts1[i])) == texts1[i]);
        assert(decode_utf8(encode_utf8(texts2[i])) == texts2[i]);
    }
    assert(texts1 =~= texts2);
}

/// Hashes a record whose hash field holds `hash` and whose texts are
/// `texts`, with a `DefaultHasher` fed the writes of `record_writes`.
pub(crate) fn content_hash_of(hash: u64, texts: &[&str]) -> (r: u64)
    ensures
        r == content_hash(hash, texts@.map_values(|t: &str| t@)),
{
    let ghost all = texts@.map_values(|t: &str| t@);
    let mut hasher = DefaultHasher::new();
    let head = vstd::bytes::u64_to_le_bytes(hash);
    std::hash::Hasher::write(&mut hasher, head.as_slice());
    let end: Vec<u8> = vec![0xffu8];
    let mut i: usize = 0;
    assert(all.take(0) =~= Seq::<Seq<char>>::empty());
    assert(hasher@ =~= record_writes(hash, all.take(0)));
    while i < texts.len()
        invariant
            i <= texts.len(),
            all == texts@.map_values(|t: &str| t@),
            end@ == seq![0xffu8],
            hasher@ == record_writes(hash, all.take(i as int)),
        decreases texts.len() - i,
    {
        let text: &str = texts[i];
        assert(all.take(i + 1).drop_last() =~= all.take(i as int));
        assert(all.take(i + 1).last() == text@);
        std::hash::Hasher::write(&mut hasher, text.as_bytes());
        std::hash::Hasher::write(&mut hasher, end.as_slice());
        assert(hasher@ =~= record_writes(hash, all.take(i + 1)));
        i = i + 1;
    }
    assert(all.take(texts.len() as int) =~= all);
    std::hash::Hasher::finish(&hasher)
}

} // verus!
