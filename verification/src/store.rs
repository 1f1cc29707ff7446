use vstd::prelude::*;

use std::collections::HashMap;

verus! {

broadcast use vstd::std_specs::hash::group_hash_axioms;

/// One record: an ordered sequence of text field values. Field count and
/// order are fixed by the record's schema; substitution only rewrites text.
pub struct Record {
    pub fields: Vec<String>,
}

impl View for Record {
    type V = Seq<Seq<char>>;

    open spec fn view(&self) -> Seq<Seq<char>> {
        self.fields.deep_view()
    }
}

/// The ordinal of the first field called `name`, or `None` when no field of
/// that name exists.
pub open spec fn field_ord_spec(names: Seq<Seq<char>>, name: Seq<char>) -> Option<int>
    decreases names.len(),
{
    if names.len() == 0 {
        Option::None
    } else if names[0] == name {
        Option::Some(0int)
    } else {
        match field_ord_spec(names.drop_first(), name) {
            Option::Some(i) => Option::Some(i + 1),
            Option::None => Option::None,
        }
    }
}

/// `field_ord_spec` returns the first ordinal whose name matches, and `None`
/// exactly when no name matches.
pub proof fn lemma_field_ord_spec(names: Seq<Seq<char>>, name: Seq<char>)
    ensures
        match field_ord_spec(names, name) {
            Option::Some(i) => 0 <= i < names.len() && names[i] == name && (forall|j: int|
                0 <= j < i ==> names[j] != name),
            Option::None => forall|j: int| 0 <= j < names.len() ==> names[j] != name,
        },
    decreases names.len(),
{
    if names.len() != 0 && names[0] != name {
        lemma_field_ord_spec(names.drop_first(), name);
        assert(forall|j: int|
            1 <= j < names.len() ==> names[j] == names.drop_first()[j - 1]);
    }
}

/// A schema: ordered named fields, with name-to-ordinal lookup. A lookup may
/// find no field of the given name.
pub struct Schema {
    name: String,
    field_names: Vec<String>,
}

impl Schema {
    /// The names of the schema's fields, in order.
    pub closed spec fn fields_view(self) -> Seq<Seq<char>> {
        self.field_names.deep_view()
    }

    /// The schema's own name.
    pub closed spec fn name_view(self) -> Seq<char> {
        self.name@
    }

    pub fn new(name: String, field_names: Vec<String>) -> (r: Schema)
        ensures
            r.name_view() == name@,
            r.fields_view() == field_names.deep_view(),
    {
        Schema { name, field_names }
    }

    pub fn field_names(&self) -> (r: &Vec<String>)
        ensures
            r.deep_view() == self.fields_view(),
    {
        &self.field_names
    }

    /// Resolves a field name to its ordinal: the first field of that name,
    /// or `None` when the schema has no such field.
    pub fn field_ord(&self, name: &String) -> (r: Option<usize>)
        ensures
            match r {
                Option::Some(i) => field_ord_spec(self.fields_view(), name@) == Option::Some(
                    i as int,
                ),
                Option::None => field_ord_spec(self.fields_view(), name@) is None,
            },
    {
        proof {
            lemma_field_ord_spec(self.fields_view(), name@);
        }
        let n = self.field_names.len();
        let mut i: usize = 0;
        while i < n
            invariant
                i <= n,
                n == self.field_names.len(),
                forall|j: int| 0 <= j < i ==> self.fields_view()[j] != name@,
                match field_ord_spec(self.fields_view(), name@) {
                    Option::Some(k) => 0 <= k < n && self.fields_view()[k] == name@ && (forall|
                        j: int,
                    |
                        0 <= j < k ==> self.fields_view()[j] != name@),
                    Option::None => forall|j: int| 0 <= j < n ==> self.fields_view()[j] != name@,
                },
            decreases n - i,
        {
            if self.field_names[i] == *name {
                assert(self.fields_view()[i as int] == name@);
                return Some(i);
            }
            i = i + 1;
        }
        None
    }
}

/// The record store: schemas and records, each keyed by id. A record entry
/// holds the id of its schema and its field texts. The store is the whole
/// state the engine reads and writes; a run either commits all its writes
/// or none.
pub struct Collection {
    schemas: HashMap<u64, Schema>,
    records: HashMap<u64, (u64, Record)>,
}

impl Collection {
    /// The stored schemas: schema id to ordered field names.
    pub closed spec fn schemas_view(self) -> Map<u64, Seq<Seq<char>>> {
        self.schemas@.map_values(|s: Schema| s.fields_view())
    }

    /// The stored records: record id to schema id and field texts.
    pub closed spec fn records_view(self) -> Map<u64, (u64, Seq<Seq<char>>)> {
        self.records@.map_values(|p: (u64, Record)| (p.0, p.1@))
    }

    pub fn new() -> (r: Collection)
        ensures
            r.schemas_view() == Map::<u64, Seq<Seq<char>>>::empty(),
            r.records_view() == Map::<u64, (u64, Seq<Seq<char>>)>::empty(),
    {
        let r = Collection { schemas: HashMap::new(), records: HashMap::new() };
        proof {
            assert(r.schemas_view() =~= Map::<u64, Seq<Seq<char>>>::empty());
            assert(r.records_view() =~= Map::<u64, (u64, Seq<Seq<char>>)>::empty());
        }
        r
    }

    /// Stores a schema under `id`, replacing any schema already there;
    /// returns whether the id was fresh.
    pub fn add_schema(&mut self, id: u64, schema: Schema) -> (fresh: bool)
        ensures
            final(self).records_view() == old(self).records_view(),
            final(self).schemas_view() == old(self).schemas_view().insert(
                id,
                schema.fields_view(),
            ),
            fresh <==> !old(self).schemas_view().contains_key(id),
    {
        let ghost fv = schema.fields_view();
        let prev = self.schemas.insert(id, schema);
        proof {
            assert(self.schemas_view() =~= old(self).schemas_view().insert(id, fv));
            assert(self.records_view() =~= old(self).records_view());
        }
        prev.is_none()
    }

    /// Stores a record under `id` with its schema id and field texts,
    /// replacing any record already there; returns whether the id was fresh.
    /// The schema id is not checked here: a record may name a schema the
    /// store never saw, and a run over such a record fails with
    /// `MissingSchema`.
    pub fn add_record(&mut self, id: u64, schema_id: u64, fields: Vec<String>) -> (fresh: bool)
        ensures
            final(self).schemas_view() == old(self).schemas_view(),
            final(self).records_view() == old(self).records_view().insert(
                id,
                (schema_id, fields.deep_view()),
            ),
            fresh <==> !old(self).records_view().contains_key(id),
    {
        let ghost fv = fields.deep_view();
        let prev = self.records.insert(id, (schema_id, Record { fields }));
        proof {
            assert(self.records_view() =~= old(self).records_view().insert(id, (schema_id, fv)));
            assert(self.schemas_view() =~= old(self).schemas_view());
        }
        prev.is_none()
    }

    /// Loads a record, or `None` when the id is absent.
    pub fn get_record(&self, id: u64) -> (r: Option<&Record>)
        ensures
            match r {
                Option::Some(rec) => self.records_view().contains_key(id) && rec@
                    == self.records_view()[id].1,
                Option::None => !self.records_view().contains_key(id),
            },
    {
        match self.records.get(&id) {
            Some(p) => Some(&p.1),
            None => None,
        }
    }

    /// Loads a record entry with its schema id, or `None` when absent.
    pub(crate) fn record_entry(&self, id: u64) -> (r: Option<&(u64, Record)>)
        ensures
            match r {
                Option::Some(p) => self.records_view().contains_key(id) && p.0
                    == self.records_view()[id].0 && p.1@ == self.records_view()[id].1,
                Option::None => !self.records_view().contains_key(id),
            },
    {
        self.records.get(&id)
    }

    /// Loads a schema, or `None` when the id is absent.
    pub fn get_schema(&self, id: u64) -> (r: Option<&Schema>)
        ensures
            match r {
                Option::Some(s) => self.schemas_view().contains_key(id) && s.fields_view()
                    == self.schemas_view()[id],
                Option::None => !self.schemas_view().contains_key(id),
            },
    {
        self.schemas.get(&id)
    }

    /// Rewrites the field texts of a stored record, keeping its schema id.
    pub(crate) fn set_record_fields(&mut self, id: u64, fields: Vec<String>)
        requires
            old(self).records_view().contains_key(id),
        ensures
            final(self).schemas_view() == old(self).schemas_view(),
            final(self).records_view() == old(self).records_view().insert(
                id,
                (old(self).records_view()[id].0, fields.deep_view()),
            ),
    {
        let ghost fv = fields.deep_view();
        let schema_id = match self.records.get(&id) {
            Some(p) => p.0,
            None => 0,
        };
        let prev = self.records.insert(id, (schema_id, Record { fields }));
        proof {
            assert(self.records_view() =~= old(self).records_view().insert(
                id,
                (old(self).records_view()[id].0, fv),
            ));
            assert(self.schemas_view() =~= old(self).schemas_view());
        }
    }
}

} // verus!
