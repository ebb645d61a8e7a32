//! What is read of JSON texts: the fields of objects, one level at a time.
use crate::text;
use vstd::prelude::*;

verus! {

/// A field of an object.
#[derive(Debug)]
pub struct Field {
    pub key: String,
    /// The value, if it is a string.
    pub string: Option<String>,
    /// The value as compact JSON.
    pub text: String,
}

/// A JSON value: the fields of each of its items if it is an array, its own
/// fields if it is an object. What is no object has no fields.
#[derive(Debug)]
pub struct Document {
    pub items: Option<Vec<Option<Vec<Field>>>>,
    pub fields: Option<Vec<Field>>,
}

/// The value of a `Field`.
#[verifier::ext_equal]
pub struct FieldModel {
    pub key: Seq<char>,
    pub string: Option<Seq<char>>,
    pub text: Seq<char>,
}

/// The value of a `Document`.
#[verifier::ext_equal]
pub struct DocumentModel {
    pub items: Option<Seq<Option<Seq<FieldModel>>>>,
    pub fields: Option<Seq<FieldModel>>,
}

impl Field {
    /// The value of the field.
    pub open spec fn model(self) -> FieldModel {
        FieldModel {
            key: self.key@,
            string: text::option_view(self.string),
            text: self.text@,
        }
    }
}

/// The values of fields.
pub open spec fn field_models(v: Seq<Field>) -> Seq<FieldModel> {
    v.map_values(|f: Field| f.model())
}

/// The values of the fields of a value.
pub open spec fn fields_view(f: Option<Vec<Field>>) -> Option<Seq<FieldModel>> {
    match f {
        Some(v) => Some(field_models(v@)),
        None => None,
    }
}

impl Document {
    /// The value of the document.
    pub open spec fn model(self) -> DocumentModel {
        DocumentModel {
            items: match self.items {
                Some(v) => Some(v@.map_values(|f: Option<Vec<Field>>| fields_view(f))),
                None => None,
            },
            fields: fields_view(self.fields),
        }
    }
}

/// What `serde_json` reads in a text, or what it has to say against it.
pub uninterp spec fn json_read(s: Seq<char>) -> Result<DocumentModel, Seq<char>>;

/// The value of what was read.
pub open spec fn read_view(r: Result<Document, String>) -> Result<DocumentModel, Seq<char>> {
    match r {
        Ok(d) => Ok(d.model()),
        Err(e) => Err(e@),
    }
}

/// Whether no two fields have the same key.
pub open spec fn keys_differ(f: Seq<FieldModel>) -> bool {
    forall|i: int, j: int| 0 <= i < j < f.len() ==> (#[trigger] f[i]).key != (#[trigger] f[j]).key
}

/// Whether in each object that was read no two fields have the same key.
pub open spec fn distinct(d: DocumentModel) -> bool {
    &&& d.fields matches Some(f) ==> keys_differ(f)
    &&& d.items matches Some(v) ==> forall|i: int|
        0 <= i < v.len() ==> ((#[trigger] v[i]) matches Some(f) ==> keys_differ(f))
}

/// Calls `serde_json::from_str` for a `serde_json::Value` and takes its fields
/// over, their values as strings where they are and as compact JSON. The
/// contract names the result, and says that no two fields of an object have the
/// same key, since an object is read into a map.
#[verifier::external_body]
pub(crate) fn read_json(s: &str) -> (r: Result<Document, String>)
    ensures
        read_view(r) == json_read(s@),
        r matches Ok(d) ==> distinct(d.model()),
{
    let fields = |v: &serde_json::Value| {
        v.as_object().map(|m| {
            m.iter().map(|(k, x)| Field {
                key: k.clone(),
                string: x.as_str().map(|t| t.to_owned()),
                text: x.to_string(),
            }).collect()
        })
    };
    let v: serde_json::Value = serde_json::from_str(s).map_err(|e| e.to_string())?;
    let items = v.as_array().map(|a| a.iter().map(|x| fields(x)).collect());
    Ok(Document { items, fields: fields(&v) })
}

/// The index of the first field with a key.
pub open spec fn key_index(f: Seq<FieldModel>, key: Seq<char>) -> Option<int>
    decreases f.len(),
{
    if f.len() == 0 {
        None
    } else if f[0].key == key {
        Some(0)
    } else {
        match key_index(f.skip(1), key) {
            Some(i) => Some(i + 1),
            None => None,
        }
    }
}

/// The field with a key of a value that may have none.
pub open spec fn field_with(f: Option<Seq<FieldModel>>, key: Seq<char>) -> Option<FieldModel> {
    match f {
        None => None,
        Some(v) => match key_index(v, key) {
            Some(i) => Some(v[i]),
            None => None,
        },
    }
}

/// Finds the field with a key.
pub fn find_key(f: &Vec<Field>, key: &str) -> (r: Option<usize>)
    ensures
        match r {
            Some(i) => key_index(field_models(f@), key@) == Some(i as int) && i < f@.len(),
            None => key_index(field_models(f@), key@) is None,
        },
{
    let ghost all = field_models(f@);
    let n: usize = f.len();
    let mut i: usize = 0;
    proof {
        assert(all.skip(0) =~= all);
    }
    while i < n
        invariant
            n == f@.len(),
            i <= n,
            all == field_models(f@),
            match key_index(all.skip(i as int), key@) {
                Some(j) => key_index(all, key@) == Some(j + i),
                None => key_index(all, key@) is None,
            },
        decreases n - i,
    {
        proof {
            assert(all[i as int] == f@[i as int].model());
            assert(all.skip(i as int).skip(1) =~= all.skip(i + 1));
        }
        if text::same_str(f[i].key.as_str(), key) {
            return Some(i);
        }
        i = i + 1;
    }
    None
}

/// Finds the field with a key of a value that may have none.
pub fn get<'a>(f: &'a Option<Vec<Field>>, key: &str) -> (r: Option<&'a Field>)
    ensures
        match r {
            Some(x) => field_with(fields_view(*f), key@) == Some(x.model()),
            None => field_with(fields_view(*f), key@) is None,
        },
{
    match f {
        Some(v) => match find_key(v, key) {
            Some(i) => {
                assert(field_models(v@)[i as int] == v@[i as int].model());
                Some(&v[i])
            },
            None => None,
        },
        None => None,
    }
}

} // verus!
