//! Environments: a schema of declared variables, built once, and the runtime values of
//! those variables, addressed by ordinal.
use vstd::prelude::*;
use vstd::string::StringExecFns;
use crate::value::{Value, ValueModel};

verus! {

/// What a schema stands for: the name and default value of each variable, by ordinal.
pub type SchemaModel = Seq<(Seq<char>, ValueModel)>;

/// Whether no two variables of a schema share a name.
pub open spec fn names_distinct(schema: SchemaModel) -> bool {
    forall|i: int, j: int|
        0 <= i < schema.len() && 0 <= j < schema.len() && i != j ==> #[trigger] schema[i].0 != #[trigger] schema[j].0
}

/// The ordinal of the variable called `name`, if one is declared.
pub open spec fn index_of(schema: SchemaModel, name: Seq<char>) -> Option<int> {
    if exists|i: int| 0 <= i < schema.len() && #[trigger] schema[i].0 == name {
        Some(choose|i: int| 0 <= i < schema.len() && #[trigger] schema[i].0 == name)
    } else {
        None
    }
}

/// The schema after declaring `name` with `default`: a new name takes the next ordinal;
/// a name already declared keeps its ordinal and takes the new default.
pub open spec fn declare(schema: SchemaModel, name: Seq<char>, default: ValueModel) -> SchemaModel {
    match index_of(schema, name) {
        Some(i) => schema.update(i, (name, default)),
        None => schema.push((name, default)),
    }
}

/// The default values of a schema, by ordinal.
pub open spec fn defaults_of(schema: SchemaModel) -> Seq<ValueModel> {
    schema.map_values(|f: (Seq<char>, ValueModel)| f.1)
}

/// A variable of an environment schema.
#[derive(Debug, PartialEq)]
pub struct EnvField {
    pub name: String,
    pub ordinal: u32,
    pub default_value: Value,
}

pub open spec fn fields_model(fields: Seq<EnvField>) -> SchemaModel {
    fields.map_values(|f: EnvField| (f.name@, f.default_value@))
}

/// Fields are stored by ordinal, with distinct names.
pub open spec fn fields_ok(fields: Seq<EnvField>) -> bool {
    &&& fields.len() <= u32::MAX
    &&& forall|i: int| 0 <= i < fields.len() ==> (#[trigger] fields[i]).ordinal == i
    &&& names_distinct(fields_model(fields))
}

/// The position of the field called `name`, if any.
fn position_of(fields: &Vec<EnvField>, name: &str) -> (r: Option<usize>)
    requires
        fields_ok(fields@),
    ensures
        match r {
            Some(i) => i < fields@.len() && index_of(fields_model(fields@), name@) == Some(i as int),
            None => index_of(fields_model(fields@), name@) is None,
        },
{
    let ghost m = fields_model(fields@);
    let key = String::from_str(name);
    let mut i: usize = 0;
    while i < fields.len()
        invariant
            m == fields_model(fields@),
            fields_ok(fields@),
            key@ == name@,
            i <= fields@.len(),
            forall|j: int| 0 <= j < i ==> #[trigger] m[j].0 != name@,
        decreases fields@.len() - i,
    {
        if fields[i].name == key {
            proof {
                assert(m[i as int].0 == name@);
                let k = choose|k: int| 0 <= k < m.len() && #[trigger] m[k].0 == name@;
                assert(names_distinct(m));
                assert(k == i);
            }
            return Some(i);
        }
        i = i + 1;
    }
    None
}

/// Copies of the fields.
fn copy_fields(fields: &Vec<EnvField>) -> (r: Vec<EnvField>)
    ensures
        r@.len() == fields@.len(),
        forall|i: int| 0 <= i < fields@.len() ==> #[trigger] r@[i].ordinal == fields@[i].ordinal,
        fields_model(r@) == fields_model(fields@),
{
    let mut out: Vec<EnvField> = Vec::new();
    let mut i: usize = 0;
    while i < fields.len()
        invariant
            i <= fields@.len(),
            out@.len() == i,
            forall|j: int| 0 <= j < i ==> #[trigger] out@[j].ordinal == fields@[j].ordinal,
            forall|j: int| 0 <= j < i ==> #[trigger] out@[j].name@ == fields@[j].name@,
            forall|j: int| 0 <= j < i ==> #[trigger] out@[j].default_value@ == fields@[j].default_value@,
        decreases fields@.len() - i,
    {
        let f = &fields[i];
        out.push(EnvField { name: f.name.clone(), ordinal: f.ordinal, default_value: f.default_value.duplicate() });
        i = i + 1;
    }
    assert forall|j: int| 0 <= j < fields@.len() implies #[trigger] fields_model(out@)[j] == fields_model(fields@)[j] by {
        assert(out@[j].name@ == fields@[j].name@);
        assert(out@[j].default_value@ == fields@[j].default_value@);
    }
    assert(fields_model(out@) =~= fields_model(fields@));
    out
}

/// The definition of an environment: the declared variables.
#[derive(Debug)]
pub struct EnvDef {
    fields: Vec<EnvField>,
}

impl View for EnvDef {
    type V = SchemaModel;

    closed spec fn view(&self) -> SchemaModel {
        fields_model(self.fields@)
    }
}

impl EnvDef {
    #[verifier::type_invariant]
    closed spec fn inv(self) -> bool {
        fields_ok(self.fields@)
    }

    /// The field called `name`, if one is declared.
    pub fn find(&self, name: &str) -> (r: Option<&EnvField>)
        ensures
            match index_of(self@, name@) {
                Some(i) => r matches Some(f) && f.ordinal == i && f.name@ == name@
                    && f.default_value@ == self@[i].1,
                None => r is None,
            },
    {
        proof {
            use_type_invariant(self);
        }
        match position_of(&self.fields, name) {
            Some(i) => Some(&self.fields[i]),
            None => None,
        }
    }

    /// A runtime environment holding each variable's default value.
    pub fn create_with_default_values(&self) -> (r: Env<'_>)
        ensures
            r@ == defaults_of(self@),
            r.schema() == self@,
            names_distinct(self@),
            self@.len() <= u32::MAX,
    {
        proof {
            use_type_invariant(self);
        }
        let mut values: Vec<Value> = Vec::new();
        let mut i: usize = 0;
        while i < self.fields.len()
            invariant
                fields_ok(self.fields@),
                i <= self.fields@.len(),
                values@.len() == i,
                forall|j: int| 0 <= j < i ==> #[trigger] values@[j]@ == self.fields@[j].default_value@,
            decreases self.fields@.len() - i,
        {
            values.push(self.fields[i].default_value.duplicate());
            i = i + 1;
        }
        let r = Env::new(self, values);
        assert(r@ =~= defaults_of(self@));
        r
    }
}

/// The runtime values of the variables of an environment definition, by ordinal.
pub struct Env<'a> {
    def: &'a EnvDef,
    values: Vec<Value>,
}

impl<'a> View for Env<'a> {
    type V = Seq<ValueModel>;

    closed spec fn view(&self) -> Seq<ValueModel> {
        self.values@.map_values(|v: Value| v@)
    }
}

impl<'a> Env<'a> {
    #[verifier::type_invariant]
    closed spec fn inv(self) -> bool {
        self.values@.len() == self.def@.len()
    }

    /// The schema this environment was made from.
    pub closed spec fn schema(&self) -> SchemaModel {
        self.def@
    }

    fn new(def: &'a EnvDef, values: Vec<Value>) -> (r: Env<'a>)
        requires
            values@.len() == def@.len(),
        ensures
            r@ == values@.map_values(|v: Value| v@),
            r.schema() == def@,
    {
        Env { def, values }
    }

    /// The value of the variable with ordinal `index`, if there is one.
    pub fn get_by_index(&self, index: u32) -> (r: Option<&Value>)
        ensures
            index < self@.len() ==> (r matches Some(v) && v@ == self@[index as int]),
            index >= self@.len() ==> r is None,
    {
        if (index as usize) < self.values.len() {
            Some(&self.values[index as usize])
        } else {
            None
        }
    }

    /// The value of the variable called `name`, if one is declared.
    pub fn get_by_name(&self, name: &str) -> (r: Option<&Value>)
        ensures
            match index_of(self.schema(), name@) {
                Some(i) => r matches Some(v) && v@ == self@[i],
                None => r is None,
            },
    {
        proof {
            use_type_invariant(self);
        }
        match self.def.find(name) {
            None => None,
            Some(field) => Some(&self.values[field.ordinal as usize]),
        }
    }
}

/// Declares variables one at a time, then builds an environment definition.
#[derive(Debug)]
pub struct EnvDefBuilder {
    fields: Vec<EnvField>,
}

impl View for EnvDefBuilder {
    type V = SchemaModel;

    closed spec fn view(&self) -> SchemaModel {
        fields_model(self.fields@)
    }
}

impl EnvDefBuilder {
    #[verifier::type_invariant]
    closed spec fn inv(self) -> bool {
        fields_ok(self.fields@)
    }

    pub fn new() -> (r: EnvDefBuilder)
        ensures
            r@ == Seq::<(Seq<char>, ValueModel)>::empty(),
    {
        let r = EnvDefBuilder { fields: Vec::new() };
        assert(r@ =~= Seq::<(Seq<char>, ValueModel)>::empty());
        r
    }

    /// Declares `name` with `default_value`. A new name takes the next ordinal; a name
    /// already declared keeps its ordinal and takes the new default value.
    pub fn with_item(self, name: &str, default_value: Value) -> (r: EnvDefBuilder)
        requires
            index_of(self@, name@) is None ==> self@.len() < u32::MAX,
        ensures
            r@ == declare(self@, name@, default_value@),
    {
        proof {
            use_type_invariant(&self);
        }
        let ghost m = self@;
        let mut fields = self.fields;
        match position_of(&fields, name) {
            Some(i) => {
                let ghost old_fields = fields@;
                fields.set(i, EnvField { name: String::from_str(name), ordinal: i as u32, default_value });
                proof {
                    assert(fields_model(fields@) =~= m.update(i as int, (name@, default_value@)));
                    assert forall|j: int| 0 <= j < fields@.len() implies (#[trigger] fields@[j]).ordinal == j by {
                        if j != i {
                            assert(fields@[j] == old_fields[j]);
                        }
                    }
                    let m2 = fields_model(fields@);
                    assert forall|a: int, b: int| 0 <= a < m2.len() && 0 <= b < m2.len() && a != b implies
                        #[trigger] m2[a].0 != #[trigger] m2[b].0 by {
                        if a != i && b != i {
                            assert(m2[a] == m[a] && m2[b] == m[b]);
                        } else if a == i {
                            assert(m2[b] == m[b]);
                            assert(m[i as int].0 == name@);
                        } else {
                            assert(m2[a] == m[a]);
                            assert(m[i as int].0 == name@);
                        }
                    }
                }
                EnvDefBuilder { fields }
            },
            None => {
                let ordinal = fields.len() as u32;
                let ghost old_fields = fields@;
                fields.push(EnvField { name: String::from_str(name), ordinal, default_value });
                proof {
                    assert(fields_model(fields@) =~= m.push((name@, default_value@)));
                    assert forall|j: int| 0 <= j < fields@.len() implies (#[trigger] fields@[j]).ordinal == j by {
                        if j < old_fields.len() {
                            assert(fields@[j] == old_fields[j]);
                        }
                    }
                    let m2 = fields_model(fields@);
                    assert forall|a: int, b: int| 0 <= a < m2.len() && 0 <= b < m2.len() && a != b implies
                        #[trigger] m2[a].0 != #[trigger] m2[b].0 by {
                        let n = m.len() as int;
                        if a != n && b != n {
                            assert(m2[a] == m[a] && m2[b] == m[b]);
                        } else if a == n {
                            assert(m2[b] == m[b]);
                            assert(m[b].0 != name@);
                        } else {
                            assert(m2[a] == m[a]);
                            assert(m[a].0 != name@);
                        }
                    }
                }
                EnvDefBuilder { fields }
            },
        }
    }

    /// The environment definition of the variables declared so far.
    pub fn build(&self) -> (r: EnvDef)
        ensures
            r@ == self@,
            names_distinct(r@),
            r@.len() <= u32::MAX,
    {
        proof {
            use_type_invariant(self);
        }
        EnvDef { fields: copy_fields(&self.fields) }
    }
}

} // verus!
