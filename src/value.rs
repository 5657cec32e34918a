//! Runtime values of the language.
use vstd::prelude::*;

verus! {

/// A runtime value: a 32-bit integer, or a tuple of values.
#[derive(Debug)]
pub enum Value {
    Int32(i32),
    Tuple(Vec<Value>),
}

/// What a `Value` stands for.
pub enum ValueModel {
    Int32(i32),
    Tuple(Seq<ValueModel>),
}

/// The model of a value.
pub open spec fn model_of(v: Value) -> ValueModel
    decreases v, 0nat,
{
    match v {
        Value::Int32(n) => ValueModel::Int32(n),
        Value::Tuple(vs) => {
            proof {
                broadcast use vstd::std_specs::vec::axiom_vec_decreases_to_view;
            }
            ValueModel::Tuple(models_of(vs@, vs@.len()))
        },
    }
}

/// The models of the first `n` values of `vs`.
pub open spec fn models_of(vs: Seq<Value>, n: nat) -> Seq<ValueModel>
    decreases vs, n,
{
    if n == 0 || n > vs.len() {
        Seq::empty()
    } else {
        proof {
            broadcast use vstd::seq::axiom_seq_index_decreases;
        }
        models_of(vs, (n - 1) as nat).push(model_of(vs[n - 1]))
    }
}

impl View for Value {
    type V = ValueModel;

    open spec fn view(&self) -> ValueModel {
        model_of(*self)
    }
}

proof fn lemma_models_prefix(a: Seq<Value>, b: Seq<Value>, n: nat)
    requires
        n <= a.len(),
        n <= b.len(),
        a.subrange(0, n as int) == b.subrange(0, n as int),
    ensures
        models_of(a, n) == models_of(b, n),
    decreases n,
{
    if n > 0 {
        assert(a.subrange(0, n - 1) == a.subrange(0, n as int).subrange(0, n - 1));
        assert(b.subrange(0, n - 1) == b.subrange(0, n as int).subrange(0, n - 1));
        assert(a[n - 1] == a.subrange(0, n as int)[n - 1]);
        assert(b[n - 1] == b.subrange(0, n as int)[n - 1]);
        lemma_models_prefix(a, b, (n - 1) as nat);
    }
}

proof fn lemma_models_index(vs: Seq<Value>, n: nat)
    requires
        n <= vs.len(),
    ensures
        models_of(vs, n).len() == n,
        forall|i: int| 0 <= i < n ==> #[trigger] models_of(vs, n)[i] == model_of(vs[i]),
    decreases n,
{
    if n > 0 {
        lemma_models_index(vs, (n - 1) as nat);
    }
}

impl Value {
    /// A deep copy of this value.
    pub fn duplicate(&self) -> (r: Value)
        ensures
            r@ == self@,
        decreases self,
    {
        match self {
            Value::Int32(n) => Value::Int32(*n),
            Value::Tuple(vs) => {
                let mut out: Vec<Value> = Vec::new();
                let mut i: usize = 0;
                while i < vs.len()
                    invariant
                        *self == Value::Tuple(*vs),
                        i <= vs@.len(),
                        out@.len() == i,
                        models_of(out@, i as nat) == models_of(vs@, i as nat),
                    decreases vs@.len() - i,
                {
                    proof {
                        broadcast use vstd::std_specs::vec::axiom_vec_index_decreases;
                        assert(decreases_to!(*vs => vs[i as int]));
                        assert(self->Tuple_0 == *vs);
                        assert(decreases_to!(*self => self->Tuple_0));
                    }
                    let c = vs[i].duplicate();
                    let ghost prev = out@;
                    out.push(c);
                    proof {
                        assert(out@.subrange(0, i as int) =~= prev.subrange(0, i as int));
                        lemma_models_prefix(out@, prev, i as nat);
                    }
                    i = i + 1;
                }
                Value::Tuple(out)
            },
        }
    }

    /// Whether two values are the same.
    pub fn same_as(&self, other: &Value) -> (r: bool)
        ensures
            r == (self@ == other@),
        decreases self,
    {
        match (self, other) {
            (Value::Int32(a), Value::Int32(b)) => *a == *b,
            (Value::Tuple(xs), Value::Tuple(ys)) => {
                proof {
                    lemma_models_index(xs@, xs@.len());
                    lemma_models_index(ys@, ys@.len());
                }
                if xs.len() != ys.len() {
                    return false;
                }
                let mut i: usize = 0;
                while i < xs.len()
                    invariant
                        *self == Value::Tuple(*xs),
                        *other == Value::Tuple(*ys),
                        i <= xs@.len(),
                        xs@.len() == ys@.len(),
                        forall|j: int| 0 <= j < i ==> model_of(#[trigger] xs@[j]) == model_of(ys@[j]),
                    decreases xs@.len() - i,
                {
                    proof {
                        broadcast use vstd::std_specs::vec::axiom_vec_index_decreases;
                        assert(decreases_to!(*xs => xs[i as int]));
                        assert(self->Tuple_0 == *xs);
                        assert(decreases_to!(*self => self->Tuple_0));
                    }
                    if !xs[i].same_as(&ys[i]) {
                        proof {
                            lemma_models_index(xs@, xs@.len());
                            lemma_models_index(ys@, ys@.len());
                            assert(models_of(xs@, xs@.len())[i as int] != models_of(ys@, ys@.len())[i as int]);
                        }
                        return false;
                    }
                    i = i + 1;
                }
                proof {
                    lemma_models_index(xs@, xs@.len());
                    lemma_models_index(ys@, ys@.len());
                    assert(models_of(xs@, xs@.len()) =~= models_of(ys@, ys@.len()));
                }
                true
            },
            _ => false,
        }
    }
}

/// Values are equal when they stand for the same value.
impl PartialEq for Value {
    fn eq(&self, other: &Value) -> (r: bool) {
        self.same_as(other)
    }
}

impl vstd::std_specs::cmp::PartialEqSpecImpl for Value {
    open spec fn obeys_eq_spec() -> bool {
        true
    }

    open spec fn eq_spec(&self, other: &Value) -> bool {
        self@ == other@
    }
}

} // verus!
