//! The Ion Hash engine: a buffer that is either empty or holds a digest, and
//! the order-independent `dot` operator that folds one such buffer into another.

use crate::hasher::{Hasher, Sha256};
use crate::ion_hash_encoder::{encode_value, ion_hash_of};
use crate::ion_parser_types::IonValue;
use std::marker::PhantomData;
use vstd::prelude::*;
use vstd::slice::slice_to_vec;

verus! {

/// A byte read as a signed 8-bit integer.
pub open spec fn signed_byte(b: u8) -> int {
    if b < 128 {
        b as int
    } else {
        b as int - 256
    }
}

/// The strict reverse-lexicographic signed-byte order: the two sequences are
/// compared from their last byte towards their first, each byte read as a
/// signed integer, and the first difference decides. A sequence that runs out
/// first precedes the longer one.
pub open spec fn precedes(a: Seq<u8>, b: Seq<u8>) -> bool
    decreases a.len(),
{
    if b.len() == 0 {
        false
    } else if a.len() == 0 {
        true
    } else if signed_byte(a.last()) != signed_byte(b.last()) {
        signed_byte(a.last()) < signed_byte(b.last())
    } else {
        precedes(a.drop_last(), b.drop_last())
    }
}

/// The smaller of two digests followed by the larger one.
pub open spec fn ordered_pair(a: Seq<u8>, b: Seq<u8>) -> Seq<u8> {
    if precedes(a, b) {
        a + b
    } else {
        b + a
    }
}

/// The result of folding the buffer `b` into the buffer `a`.
pub open spec fn dot_of<D: Hasher>(a: Seq<u8>, b: Seq<u8>) -> Seq<u8> {
    if b.len() == 0 {
        a
    } else if a.len() == 0 {
        b
    } else {
        D::spec_digest(ordered_pair(a, b))
    }
}

/// No sequence precedes itself.
pub proof fn lemma_precedes_irreflexive(a: Seq<u8>)
    ensures
        !precedes(a, a),
    decreases a.len(),
{
    if a.len() > 0 {
        lemma_precedes_irreflexive(a.drop_last());
    }
}

/// Two sequences never precede each other.
pub proof fn lemma_precedes_asymmetric(a: Seq<u8>, b: Seq<u8>)
    requires
        precedes(a, b),
    ensures
        !precedes(b, a),
    decreases a.len(),
{
    if a.len() > 0 && b.len() > 0 && signed_byte(a.last()) == signed_byte(b.last()) {
        lemma_precedes_asymmetric(a.drop_last(), b.drop_last());
    }
}

/// Of two different sequences one precedes the other.
pub proof fn lemma_precedes_connected(a: Seq<u8>, b: Seq<u8>)
    requires
        !precedes(a, b),
        !precedes(b, a),
    ensures
        a == b,
    decreases a.len(),
{
    if a.len() > 0 && b.len() > 0 {
        lemma_precedes_connected(a.drop_last(), b.drop_last());
        assert(a.last() == b.last());
        assert(a =~= a.drop_last().push(a.last()));
        assert(b =~= b.drop_last().push(b.last()));
    } else {
        assert(a =~= b);
    }
}

/// The order is transitive.
pub proof fn lemma_precedes_transitive(a: Seq<u8>, b: Seq<u8>, c: Seq<u8>)
    requires
        precedes(a, b),
        precedes(b, c),
    ensures
        precedes(a, c),
    decreases a.len(),
{
    if a.len() > 0 && signed_byte(a.last()) == signed_byte(b.last()) && signed_byte(b.last())
        == signed_byte(c.last()) {
        lemma_precedes_transitive(a.drop_last(), b.drop_last(), c.drop_last());
    }
}

/// The two digests are laid out in the same order whichever comes first.
pub proof fn lemma_ordered_pair_commutes(a: Seq<u8>, b: Seq<u8>)
    ensures
        ordered_pair(a, b) == ordered_pair(b, a),
{
    if precedes(a, b) {
        lemma_precedes_asymmetric(a, b);
    } else if !precedes(b, a) {
        lemma_precedes_connected(a, b);
    }
}

/// `dot` is commutative: folding `b` into `a` gives the same buffer as folding
/// `a` into `b`.
pub proof fn lemma_dot_commutes<D: Hasher>(a: Seq<u8>, b: Seq<u8>)
    ensures
        dot_of::<D>(a, b) == dot_of::<D>(b, a),
{
    lemma_ordered_pair_commutes(a, b);
    if a.len() == 0 && b.len() == 0 {
        assert(a =~= b);
    }
}

/// Starting from an empty hash, folding in `a` and then `b` gives the same
/// buffer as folding in `b` and then `a`.
pub proof fn lemma_dot_order_independent<D: Hasher>(start: Seq<u8>, a: Seq<u8>, b: Seq<u8>)
    requires
        start.len() == 0,
    ensures
        dot_of::<D>(dot_of::<D>(start, a), b) == dot_of::<D>(dot_of::<D>(start, b), a),
{
    lemma_dot_commutes::<D>(a, b);
    if a.len() == 0 {
        assert(dot_of::<D>(start, a) =~= a);
    }
    if b.len() == 0 {
        assert(dot_of::<D>(start, b) =~= b);
    }
}

/// Reads a byte as a signed 8-bit integer.
fn to_signed(b: u8) -> (r: i16)
    ensures
        r as int == signed_byte(b),
{
    if b < 128 {
        b as i16
    } else {
        b as i16 - 256
    }
}

/// Decides the reverse-lexicographic signed-byte order on two byte strings.
pub fn bytes_precede(a: &[u8], b: &[u8]) -> (r: bool)
    ensures
        r == precedes(a@, b@),
{
    let mut i: usize = a.len();
    let mut j: usize = b.len();
    assert(a@.take(i as int) =~= a@ && b@.take(j as int) =~= b@);
    while i > 0 && j > 0
        invariant
            i <= a.len(),
            j <= b.len(),
            precedes(a@, b@) == precedes(a@.take(i as int), b@.take(j as int)),
        decreases i,
    {
        let x: i16 = to_signed(a[i - 1]);
        let y: i16 = to_signed(b[j - 1]);
        proof {
            let sa = a@.take(i as int);
            let sb = b@.take(j as int);
            assert(sa.last() == a@[i - 1]);
            assert(sb.last() == b@[j - 1]);
            assert(sa.drop_last() =~= a@.take(i - 1));
            assert(sb.drop_last() =~= b@.take(j - 1));
        }
        if x != y {
            return x < y;
        }
        i -= 1;
        j -= 1;
    }
    j > 0
}

/// An Ion Hash over the digest primitive `D`: a buffer that is empty or holds
/// a digest. Values are added with the `add_*` methods, each of which folds
/// one more digest into the buffer with `dot`; `get` hands out the result.
#[derive(Debug)]
pub struct IonHash<D: Hasher = Sha256> {
    buffer: Vec<u8>,
    hasher_type: PhantomData<D>,
}

impl<D: Hasher> View for IonHash<D> {
    type V = Seq<u8>;

    closed spec fn view(&self) -> Seq<u8> {
        self.buffer@
    }
}

impl<D: Hasher> IonHash<D> {
    /// Hashes the bytes and folds the digest into this hash.
    pub fn add_bytes(&mut self, value: &[u8])
        ensures
            final(self)@ == dot_of::<D>(old(self)@, D::spec_digest(value@)),
            final(self)@.len() == D::spec_width(),
            final(self)@.len() > 0,
    {
        let value = IonHash::from_bytes::<D>(value);
        self.dot(value);
    }

    /// Takes the bytes as a digest and folds them into this hash.
    pub fn add_hashed_bytes(&mut self, value: &[u8])
        ensures
            final(self)@ == dot_of::<D>(old(self)@, value@),
    {
        let value = IonHash::from_hashes_bytes::<D>(value);
        self.dot(value);
    }

    /// Serializes the value, hashes the serialization and folds the digest
    /// into this hash.
    pub fn add_ion_value(&mut self, value: &IonValue)
        ensures
            final(self)@ == dot_of::<D>(old(self)@, ion_hash_of::<D>(value@)),
            final(self)@.len() == D::spec_width(),
            final(self)@.len() > 0,
    {
        let buffer = encode_value::<D>(value);
        let value = IonHash::from_bytes::<D>(buffer.as_slice());
        self.dot(value);
    }

    /// Folds `value` into this hash. An empty `value` changes nothing, an
    /// empty `self` takes the buffer of `value`; otherwise the new buffer is
    /// the digest of the two buffers, the one that precedes the other first.
    pub fn dot(&mut self, value: IonHash<D>) -> (ret: &mut Self)
        ensures
            ret@ == dot_of::<D>(old(self)@, value@),
            *final(self) == *final(ret),
            old(self)@.len() > 0 && value@.len() > 0 ==> ret@.len() == D::spec_width(),
            old(self)@.len() > 0 || value@.len() > 0 ==> ret@.len() > 0,
    {
        if value.buffer.len() == 0 {
            return self;
        }
        if self.buffer.len() == 0 {
            self.buffer = value.buffer;
            return self;
        }
        let mut buffer: Vec<u8> = Vec::new();
        if bytes_precede(self.get(), value.get()) {
            buffer.extend_from_slice(self.get());
            buffer.extend_from_slice(value.get());
        } else {
            buffer.extend_from_slice(value.get());
            buffer.extend_from_slice(self.get());
        }
        assert(buffer@ =~= ordered_pair(self@, value@));
        self.buffer = D::digest(buffer.as_slice());
        self
    }

    /// The current buffer: empty, or the digest of all that was added.
    pub fn get(&self) -> (r: &[u8])
        ensures
            r@ == self@,
    {
        self.buffer.as_slice()
    }
}

impl IonHash {
    /// An empty hash over SHA-256.
    pub fn new() -> (r: IonHash)
        ensures
            r@ == Seq::<u8>::empty(),
    {
        IonHash { buffer: Vec::new(), hasher_type: PhantomData }
    }

    /// A hash that holds the digest of `buf`.
    pub fn from_bytes<D: Hasher>(buf: &[u8]) -> (r: IonHash<D>)
        ensures
            r@ == D::spec_digest(buf@),
            r@.len() == D::spec_width(),
            r@.len() > 0,
    {
        let hashed_bytes = D::digest(buf);
        IonHash::from_hashes_bytes(hashed_bytes.as_slice())
    }

    /// A hash that holds `buf` itself, taken as a digest.
    pub fn from_hashes_bytes<D: Hasher>(buf: &[u8]) -> (r: IonHash<D>)
        ensures
            r@ == buf@,
    {
        IonHash { buffer: slice_to_vec(buf), hasher_type: PhantomData }
    }

    /// A hash that holds the Ion Hash of `value`.
    pub fn from_ion_value<D: Hasher>(value: &IonValue) -> (r: IonHash<D>)
        ensures
            r@ == ion_hash_of::<D>(value@),
            r@.len() == D::spec_width(),
            r@.len() > 0,
    {
        let mut hash = IonHash::with_hasher::<D>();
        hash.add_ion_value(value);
        assert(hash@ =~= ion_hash_of::<D>(value@));
        hash
    }

    /// An empty hash over the primitive `D`.
    pub fn with_hasher<D: Hasher>() -> (r: IonHash<D>)
        ensures
            r@ == Seq::<u8>::empty(),
    {
        IonHash { buffer: Vec::new(), hasher_type: PhantomData }
    }

    /// The Ion Hash of `value` over the primitive `D`, in one step.
    pub fn digest<D: Hasher>(value: &IonValue) -> (r: Vec<u8>)
        ensures
            r@ == ion_hash_of::<D>(value@),
            r@.len() == D::spec_width(),
            r@.len() > 0,
    {
        slice_to_vec(IonHash::from_ion_value::<D>(value).get())
    }

    /// The Ion Hash of `value` over SHA-256, in one step.
    pub fn default_digest(value: &IonValue) -> (r: Vec<u8>)
        ensures
            r@ == ion_hash_of::<Sha256>(value@),
            r@.len() == 32,
    {
        slice_to_vec(IonHash::from_ion_value::<Sha256>(value).get())
    }
}

impl Default for IonHash {
    /// An empty hash over SHA-256.
    fn default() -> (r: IonHash<Sha256>)
        ensures
            r@ == Seq::<u8>::empty(),
    {
        IonHash::with_hasher::<Sha256>()
    }
}

/// Hash stability: a value and a copy of it, which has the same model, have
/// the same Ion Hash.
pub proof fn lemma_hash_of_copy<D: Hasher>(value: IonValue, copy: IonValue)
    requires
        copy@ == value@,
    ensures
        ion_hash_of::<D>(copy@) == ion_hash_of::<D>(value@),
{
}

/// Decides whether two byte strings are the same.
pub fn bytes_equal(a: &[u8], b: &[u8]) -> (r: bool)
    ensures
        r == (a@ == b@),
{
    if a.len() != b.len() {
        return false;
    }
    let mut i: usize = 0;
    while i < a.len()
        invariant
            a.len() == b.len(),
            i <= a.len(),
            forall|k: int| 0 <= k < i ==> a@[k] == b@[k],
        decreases a.len() - i,
    {
        if a[i] != b[i] {
            return false;
        }
        i += 1;
    }
    assert(a@ =~= b@);
    true
}

} // verus!
