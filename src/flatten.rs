//! The attribute flattener: fields to attributes, and decrypted attributes back to values.
use crate::attrs::{AttrView, FlattenedProtectedAttribute, FlattenedProtectedAttributes, Plaintext};
use crate::error::SealError;
use crate::key::{
    copy_opt, decode, encode, lemma_descriptor_round_trip, opt_view, valid_opt_part, valid_part,
    FlattenedKey, KeyView,
};
use vstd::prelude::*;

verus! {

/// The model of a field: the units it flattens to, each an optional subkey and its bytes.
pub type FieldView = Seq<(Option<Seq<char>>, Seq<u8>)>;

/// The value of an application field: a scalar, or a map from subkeys to values.
pub enum FieldValue {
    Scalar(Plaintext),
    Entries(Vec<(String, Plaintext)>),
}

impl View for FieldValue {
    type V = FieldView;

    open spec fn view(&self) -> FieldView {
        match self {
            FieldValue::Scalar(p) => seq![(None, p.bytes@)],
            FieldValue::Entries(es) => es@.map_values(
                |e: (String, Plaintext)| (Some(e.0@), e.1.bytes@),
            ),
        }
    }
}

/// The attributes of one field named `name`, under `prefix`.
pub open spec fn field_units(prefix: Option<Seq<char>>, name: Seq<char>, f: FieldView) -> Seq<
    AttrView,
> {
    f.map_values(|u: (Option<Seq<char>>, Seq<u8>)| (u.1, (prefix, name, u.0)))
}

/// The attributes of named fields, field after field.
pub open spec fn flatten_fields(
    prefix: Option<Seq<char>>,
    fields: Seq<(Seq<char>, FieldView)>,
) -> Seq<AttrView>
    decreases fields.len(),
{
    if fields.len() == 0 {
        Seq::empty()
    } else {
        flatten_fields(prefix, fields.drop_last()) + field_units(
            prefix,
            fields.last().0,
            fields.last().1,
        )
    }
}

pub open spec fn fields_view(fields: Seq<(String, FieldValue)>) -> Seq<(Seq<char>, FieldView)> {
    fields.map_values(|f: (String, FieldValue)| (f.0@, f.1@))
}

/// Flattens named fields into attributes under `prefix`: one per scalar and one per
/// map entry, in order.
pub fn flatten(prefix: Option<String>, fields: &Vec<(String, FieldValue)>) -> (r:
    FlattenedProtectedAttributes)
    ensures
        r@ == flatten_fields(opt_view(prefix), fields_view(fields@)),
{
    let ghost pv = opt_view(prefix);
    let ghost fv = fields_view(fields@);
    let mut r = FlattenedProtectedAttributes::new_with_capacity(fields.len());
    let mut i: usize = 0;
    while i < fields.len()
        invariant
            i <= fields@.len(),
            pv == opt_view(prefix),
            fv == fields_view(fields@),
            r@ == flatten_fields(pv, fv.take(i as int)),
        decreases fields@.len() - i,
    {
        let (name, value) = &fields[i];
        let ghost before = r@;
        let ghost units = field_units(pv, name@, value@);
        match value {
            FieldValue::Scalar(p) => {
                let key = FlattenedKey::new(copy_opt(&prefix), name.as_str());
                r.push(FlattenedProtectedAttribute::new(p.copy(), key));
                assert(r@ =~= before + units);
            },
            FieldValue::Entries(es) => {
                let mut j: usize = 0;
                while j < es.len()
                    invariant
                        j <= es@.len(),
                        pv == opt_view(prefix),
                        units == field_units(pv, name@, value@),
                        *value == FieldValue::Entries(*es),
                        r@ == before + units.take(j as int),
                    decreases es@.len() - j,
                {
                    let (sk, p) = &es[j];
                    let key = FlattenedKey::new(copy_opt(&prefix), name.as_str()).with_subkey(
                        sk.as_str(),
                    );
                    r.push(FlattenedProtectedAttribute::new(p.copy(), key));
                    assert(units.take(j + 1) =~= units.take(j as int).push(units[j as int]));
                    j = j + 1;
                }
                assert(units.take(j as int) =~= units);
            },
        }
        assert(fv.take(i + 1).drop_last() =~= fv.take(i as int));
        i = i + 1;
    }
    assert(fv.take(i as int) =~= fv);
    r
}

/// The value stored under `key` and `subkey`: the first attribute with both.
pub open spec fn lookup(units: Seq<AttrView>, key: Seq<char>, subkey: Option<Seq<char>>) -> Option<
    Seq<u8>,
>
    decreases units.len(),
{
    if units.len() == 0 {
        None
    } else if units[0].1.1 == key && units[0].1.2 == subkey {
        Some(units[0].0)
    } else {
        lookup(units.drop_first(), key, subkey)
    }
}

/// The attributes as the service hands them back: each key written as its
/// descriptor and read back from it.
pub open spec fn through_descriptors(units: Seq<AttrView>) -> Seq<AttrView> {
    units.map_values(|u: AttrView| (u.0, decode(encode(u.1))))
}

/// Decrypted attributes, from which field values are read back.
pub struct NormalizedProtectedAttributes {
    attributes: FlattenedProtectedAttributes,
}

impl View for NormalizedProtectedAttributes {
    type V = Seq<AttrView>;

    closed spec fn view(&self) -> Seq<AttrView> {
        self.attributes@
    }
}

impl NormalizedProtectedAttributes {
    pub fn from_flattened(attributes: FlattenedProtectedAttributes) -> (r:
        NormalizedProtectedAttributes)
        ensures
            r@ == attributes@,
    {
        NormalizedProtectedAttributes { attributes }
    }

    fn get(&self, key: &str, subkey: Option<String>) -> (r: Result<Plaintext, SealError>)
        ensures
            match lookup(self@, key@, opt_view(subkey)) {
                Some(v) => r matches Ok(p) && p.bytes@ == v,
                None => r matches Err(SealError::NotFound(d)) && d@ == encode(
                    (None, key@, opt_view(subkey)),
                ),
            },
    {
        let ghost sv = opt_view(subkey);
        let k = String::from_str(key);
        let n = self.attributes.len();
        let mut i: usize = 0;
        assert(self@.skip(0) =~= self@);
        while i < n
            invariant
                n == self@.len(),
                i <= n,
                k@ == key@,
                sv == opt_view(subkey),
                lookup(self@, key@, sv) == lookup(self@.skip(i as int), key@, sv),
            decreases n - i,
        {
            let a = self.attributes.attribute(i);
            assert(self@.skip(i as int)[0] == self@[i as int]);
            if a.key().matches(&k, &subkey) {
                return Ok(a.plaintext().copy());
            }
            assert(self@.skip(i as int).drop_first() =~= self@.skip(i + 1));
            i = i + 1;
        }
        assert(self@.skip(i as int).len() == 0);
        let missing = match subkey {
            Some(s) => FlattenedKey::new(None, key).with_subkey(s.as_str()),
            None => FlattenedKey::new(None, key),
        };
        Err(SealError::NotFound(missing.descriptor()))
    }

    /// The value of the scalar field `key`.
    pub fn get_scalar(&self, key: &str) -> (r: Result<Plaintext, SealError>)
        ensures
            match lookup(self@, key@, None) {
                Some(v) => r matches Ok(p) && p.bytes@ == v,
                None => r matches Err(SealError::NotFound(d)) && d@ == encode((None, key@, None)),
            },
    {
        self.get(key, None)
    }

    /// The value of entry `subkey` of the map field `key`.
    pub fn get_map_entry(&self, key: &str, subkey: &str) -> (r: Result<Plaintext, SealError>)
        ensures
            match lookup(self@, key@, Some(subkey@)) {
                Some(v) => r matches Ok(p) && p.bytes@ == v,
                None => r matches Err(SealError::NotFound(d)) && d@ == encode(
                    (None, key@, Some(subkey@)),
                ),
            },
    {
        self.get(key, Some(String::from_str(subkey)))
    }
}

/// Two entries of one map field, flattened, passed through their descriptors and read
/// back, each give back their own value and not their sibling's.
pub proof fn lemma_map_entry_round_trip(
    prefix: Option<Seq<char>>,
    name: Seq<char>,
    x: Seq<char>,
    vx: Seq<u8>,
    y: Seq<char>,
    vy: Seq<u8>,
)
    requires
        valid_opt_part(prefix),
        valid_part(name),
        valid_part(x),
        valid_part(y),
        x != y,
    ensures
        ({
            let back = through_descriptors(
                flatten_fields(prefix, seq![(name, seq![(Some(x), vx), (Some(y), vy)])]),
            );
            lookup(back, name, Some(x)) == Some(vx) && lookup(back, name, Some(y)) == Some(vy)
        }),
{
    let f: FieldView = seq![(Some(x), vx), (Some(y), vy)];
    let fields = seq![(name, f)];
    assert(fields.drop_last() =~= Seq::<(Seq<char>, FieldView)>::empty());
    assert(flatten_fields(prefix, fields.drop_last()) == Seq::<AttrView>::empty());
    let units = flatten_fields(prefix, fields);
    assert(units =~= field_units(prefix, name, f));
    let kx: KeyView = (prefix, name, Some(x));
    let ky: KeyView = (prefix, name, Some(y));
    lemma_descriptor_round_trip(kx);
    lemma_descriptor_round_trip(ky);
    let back = through_descriptors(units);
    assert(back =~= seq![(vx, kx), (vy, ky)]);
    assert(back.drop_first() =~= seq![(vy, ky)]);
    assert(back.drop_first().drop_first().len() == 0);
    assert(lookup(back, name, Some(x)) == Some(vx));
    assert(lookup(back.drop_first(), name, Some(y)) == Some(vy));
    assert(lookup(back, name, Some(y)) == Some(vy));
}

} // verus!
