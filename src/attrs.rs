//! Flattening fields into encryptable attributes, and reading them back.
use crate::error::SealError;
use crate::key::{decode, encode, opt_view, FlattenedKey, KeyView, NormalizedKey};
use vstd::prelude::*;
use vstd::string::StringSliceAdditionalSpecFns;

verus! {

/// A plaintext value: the bytes handed to the cryptographic service.
#[derive(PartialEq, Eq, Clone, Debug)]
pub struct Plaintext {
    pub bytes: Vec<u8>,
}

impl Plaintext {
    pub fn new(bytes: Vec<u8>) -> (r: Plaintext)
        ensures
            r.bytes@ == bytes@,
    {
        Plaintext { bytes }
    }

    /// The UTF-8 bytes of a string.
    pub fn from_text(s: &str) -> (r: Plaintext)
        ensures
            r.bytes@ == s.spec_bytes(),
    {
        Plaintext { bytes: s.as_bytes_vec() }
    }

    pub fn to_vec(&self) -> (r: Vec<u8>)
        ensures
            r@ == self.bytes@,
    {
        let r = self.bytes.clone();
        assert(r@ =~= self.bytes@);
        r
    }

    pub fn copy(&self) -> (r: Plaintext)
        ensures
            r.bytes@ == self.bytes@,
    {
        Plaintext { bytes: self.to_vec() }
    }
}

/// The model of an attribute: its plaintext bytes and its key.
pub type AttrView = (Seq<u8>, KeyView);

/// An attribute meant for encryption: a plaintext and the key it is stored under.
#[derive(PartialEq, Eq, Debug)]
pub struct FlattenedProtectedAttribute {
    plaintext: Plaintext,
    key: FlattenedKey,
}

/// What the cryptographic service takes for one attribute: its bytes and descriptor.
#[derive(PartialEq, Eq, Debug)]
pub struct BytesWithDescriptor {
    pub bytes: Vec<u8>,
    pub descriptor: String,
}

impl View for FlattenedProtectedAttribute {
    type V = AttrView;

    closed spec fn view(&self) -> AttrView {
        (self.plaintext.bytes@, self.key@)
    }
}

impl FlattenedProtectedAttribute {
    pub fn new(plaintext: Plaintext, key: FlattenedKey) -> (r: FlattenedProtectedAttribute)
        ensures
            r@ == (plaintext.bytes@, key@),
    {
        FlattenedProtectedAttribute { plaintext, key }
    }

    /// The plaintext, the normalized key and the subkey, if one is set.
    pub fn normalize_into_parts(self) -> (r: (Plaintext, NormalizedKey, Option<String>))
        ensures
            r.0.bytes@ == self@.0,
            match r.1 {
                NormalizedKey::MapKey(k) => self@.1.2 is Some && k@ == self@.1.1,
                NormalizedKey::Scalar(k) => self@.1.2 is None && k@ == self@.1.1,
            },
            opt_view(r.2) == self@.1.2,
    {
        let (normalized, subkey) = self.key.normalize();
        (self.plaintext, normalized, subkey)
    }

    pub fn descriptor(&self) -> (r: String)
        ensures
            r@ == encode(self@.1),
    {
        self.key.descriptor()
    }

    pub fn key(&self) -> (r: &FlattenedKey)
        ensures
            r@ == self@.1,
    {
        &self.key
    }

    pub fn plaintext(&self) -> (r: &Plaintext)
        ensures
            r.bytes@ == self@.0,
    {
        &self.plaintext
    }

    /// The bytes and the descriptor that the cryptographic service takes.
    pub fn into_bytes_with_descriptor(self) -> (r: BytesWithDescriptor)
        ensures
            r.bytes@ == self@.0,
            r.descriptor@ == encode(self@.1),
    {
        let descriptor = self.descriptor();
        BytesWithDescriptor { bytes: self.plaintext.bytes, descriptor }
    }
}

/// An ordered batch of attributes meant for encryption.
#[derive(PartialEq, Eq, Debug)]
pub struct FlattenedProtectedAttributes(Vec<FlattenedProtectedAttribute>);

impl View for FlattenedProtectedAttributes {
    type V = Seq<AttrView>;

    closed spec fn view(&self) -> Seq<AttrView> {
        self.0@.map_values(|a: FlattenedProtectedAttribute| a@)
    }
}

impl FlattenedProtectedAttributes {
    pub fn new_with_capacity(capacity: usize) -> (r: FlattenedProtectedAttributes)
        ensures
            r@ == Seq::<AttrView>::empty(),
    {
        let r = FlattenedProtectedAttributes(Vec::with_capacity(capacity));
        assert(r@ =~= Seq::<AttrView>::empty());
        r
    }

    pub fn from_vec(attributes: Vec<FlattenedProtectedAttribute>) -> (r: FlattenedProtectedAttributes)
        ensures
            r@ == attributes@.map_values(|a: FlattenedProtectedAttribute| a@),
    {
        FlattenedProtectedAttributes(attributes)
    }

    pub fn len(&self) -> (r: usize)
        ensures
            r == self@.len(),
    {
        self.0.len()
    }

    pub fn attribute(&self, i: usize) -> (r: &FlattenedProtectedAttribute)
        requires
            i < self@.len(),
        ensures
            r@ == self@[i as int],
    {
        &self.0[i]
    }

    pub fn is_empty(&self) -> (r: bool)
        ensures
            r == (self@.len() == 0),
    {
        self.0.len() == 0
    }

    /// The attributes, in order.
    pub fn into_iter(self) -> (r: Vec<FlattenedProtectedAttribute>)
        ensures
            r@.map_values(|a: FlattenedProtectedAttribute| a@) == self@,
    {
        self.0
    }

    pub fn push(&mut self, attribute: FlattenedProtectedAttribute)
        ensures
            final(self)@ == old(self)@.push(attribute@),
    {
        self.0.push(attribute);
        assert(final(self)@ =~= old(self)@.push(attribute@));
    }

    /// Appends the attributes of `other`, keeping the order of both.
    pub fn extend(&mut self, other: FlattenedProtectedAttributes)
        ensures
            final(self)@ == old(self)@ + other@,
    {
        let mut o = other.0;
        self.0.append(&mut o);
        assert(final(self)@ =~= old(self)@ + other@);
    }

    /// Builds a batch from plaintexts and descriptors, reading each descriptor as a key.
    pub fn from_iter(items: Vec<(Plaintext, String)>) -> (r: FlattenedProtectedAttributes)
        ensures
            r@.len() == items@.len(),
            forall|i: int|
                0 <= i < items@.len() ==> #[trigger] r@[i] == (
                    items@[i].0.bytes@,
                    decode(items@[i].1@),
                ),
    {
        let mut r = FlattenedProtectedAttributes::new_with_capacity(items.len());
        let mut i: usize = 0;
        while i < items.len()
            invariant
                i <= items@.len(),
                r@.len() == i,
                forall|j: int|
                    0 <= j < i ==> #[trigger] r@[j] == (items@[j].0.bytes@, decode(items@[j].1@)),
            decreases items@.len() - i,
        {
            let (plaintext, descriptor) = &items[i];
            let key = FlattenedKey::parse(descriptor.as_str());
            r.push(FlattenedProtectedAttribute::new(plaintext.copy(), key));
            i = i + 1;
        }
        r
    }

    /// What the cryptographic service takes for the batch, in order.
    pub fn encryption_inputs(self) -> (r: Vec<BytesWithDescriptor>)
        ensures
            r@.len() == self@.len(),
            forall|i: int|
                0 <= i < self@.len() ==> #[trigger] r@[i].bytes@ == self@[i].0
                    && r@[i].descriptor@ == encode(self@[i].1),
    {
        let mut r: Vec<BytesWithDescriptor> = Vec::new();
        let mut i: usize = 0;
        while i < self.0.len()
            invariant
                i <= self@.len(),
                self@.len() == self.0@.len(),
                r@.len() == i,
                forall|j: int|
                    0 <= j < i ==> #[trigger] r@[j].bytes@ == self@[j].0 && r@[j].descriptor@
                        == encode(self@[j].1),
            decreases self@.len() - i,
        {
            let a = &self.0[i];
            r.push(BytesWithDescriptor { bytes: a.plaintext.to_vec(), descriptor: a.descriptor() });
            i = i + 1;
        }
        r
    }
}

} // verus!
