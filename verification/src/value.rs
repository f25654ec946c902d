use vstd::prelude::*;

verus! {

// ---------------------------------------------------------------------------
// Declared column types.
// ---------------------------------------------------------------------------

/// The declared type of a domain field or of a wire column.
#[derive(Debug)]
pub enum DeclaredType {
    Int,
    Text,
    List(Box<DeclaredType>),
    Optional(Box<DeclaredType>),
}

impl DeclaredType {
    /// Whether the declared type is already optional (nullable).
    pub fn is_option(&self) -> (r: bool)
        ensures
            r == (self is Optional),
    {
        match self {
            DeclaredType::Optional(_) => true,
            _ => false,
        }
    }

    /// Whether the declared type is list-shaped.
    pub fn is_vec(&self) -> (r: bool)
        ensures
            r == (self is List),
    {
        match self {
            DeclaredType::List(_) => true,
            _ => false,
        }
    }
}

/// A copy of a declared type.
pub fn ty_clone(t: &DeclaredType) -> (r: DeclaredType)
    ensures
        r == *t,
    decreases t,
{
    match t {
        DeclaredType::Int => DeclaredType::Int,
        DeclaredType::Text => DeclaredType::Text,
        DeclaredType::List(inner) => DeclaredType::List(Box::new(ty_clone(inner))),
        DeclaredType::Optional(inner) => DeclaredType::Optional(Box::new(ty_clone(inner))),
    }
}

/// Structural equality of two declared types.
pub fn ty_eq(a: &DeclaredType, b: &DeclaredType) -> (r: bool)
    ensures
        r == (a == b),
    decreases a,
{
    match (a, b) {
        (DeclaredType::Int, DeclaredType::Int) => true,
        (DeclaredType::Text, DeclaredType::Text) => true,
        (DeclaredType::List(x), DeclaredType::List(y)) => ty_eq(x, y),
        (DeclaredType::Optional(x), DeclaredType::Optional(y)) => ty_eq(x, y),
        _ => false,
    }
}

// ---------------------------------------------------------------------------
// Values.
// ---------------------------------------------------------------------------

/// A domain or wire value of the modeled universe.
#[derive(Debug)]
pub enum Value {
    Int(i64),
    Text(String),
    List(Vec<Value>),
    Opt(Option<Box<Value>>),
}

/// Mathematical model of a `Value`.
#[verifier::ext_equal]
pub enum ValModel {
    Int(int),
    Text(Seq<char>),
    List(Seq<ValModel>),
    Opt(Option<Box<ValModel>>),
}

/// The mathematical model of a value.
pub open spec fn val_model(v: Value) -> ValModel
    decreases v,
{
    match v {
        Value::Int(i) => ValModel::Int(i as int),
        Value::Text(s) => ValModel::Text(s@),
        Value::List(l) => ValModel::List(vals_view(l@)),
        Value::Opt(o) => ValModel::Opt(
            match o {
                Option::Some(b) => Option::Some(Box::new(val_model(*b))),
                Option::None => Option::None,
            },
        ),
    }
}

/// The models of a sequence of values.
pub open spec fn vals_view(s: Seq<Value>) -> Seq<ValModel>
    decreases s,
{
    if s.len() == 0 {
        Seq::empty()
    } else {
        vals_view(s.subrange(0, s.len() - 1)).push(val_model(s[s.len() - 1]))
    }
}

/// The model of a sequence of values is the sequence of the element models.
pub proof fn lemma_vals_view(s: Seq<Value>)
    ensures
        vals_view(s).len() == s.len(),
        forall|i: int| 0 <= i < s.len() ==> vals_view(s)[i] == val_model(#[trigger] s[i]),
    decreases s.len(),
{
    if s.len() > 0 {
        let pre = s.subrange(0, s.len() - 1);
        lemma_vals_view(pre);
        assert forall|i: int| 0 <= i < s.len() implies vals_view(s)[i] == val_model(
            #[trigger] s[i],
        ) by {
            if i < s.len() - 1 {
                assert(pre[i] == s[i]);
            }
        }
    }
}

impl View for Value {
    type V = ValModel;

    open spec fn view(&self) -> ValModel {
        val_model(*self)
    }
}

/// Whether a value conforms to a declared type.
pub open spec fn value_fits(v: ValModel, t: DeclaredType) -> bool
    decreases v,
{
    match t {
        DeclaredType::Int => v is Int,
        DeclaredType::Text => v is Text,
        DeclaredType::List(inner) => match v {
            ValModel::List(elems) => forall|i: int|
                0 <= i < elems.len() ==> value_fits(#[trigger] elems[i], *inner),
            _ => false,
        },
        DeclaredType::Optional(inner) => match v {
            ValModel::Opt(o) => match o {
                Option::Some(b) => value_fits(*b, *inner),
                Option::None => true,
            },
            _ => false,
        },
    }
}

/// Runtime check that a value conforms to a declared type.
pub fn value_fits_exec(v: &Value, t: &DeclaredType) -> (r: bool)
    ensures
        r == value_fits(v@, *t),
    decreases v,
{
    match v {
        Value::Int(_) => matches!(t, DeclaredType::Int),
        Value::Text(_) => matches!(t, DeclaredType::Text),
        Value::List(elems) => match t {
            DeclaredType::List(inner) => {
                let mut i: usize = 0;
                let mut ok = true;
                while i < elems.len()
                    invariant
                        i <= elems.len(),
                        ok == forall|j: int|
                            0 <= j < i ==> value_fits(val_model(#[trigger] elems@[j]), *(*inner)),
                        *v == Value::List(*elems),
                        t matches DeclaredType::List(b) && b == inner,
                    decreases elems.len() - i,
                {
                    proof {
                        assert(decreases_to!(*v => v->List_0));
                        assert(decreases_to!(*v => elems@[i as int]));
                    }
                    if !value_fits_exec(&elems[i], inner) {
                        ok = false;
                    }
                    i += 1;
                }
                proof {
                    lemma_vals_view(elems@);
                    let mv = vals_view(elems@);
                    assert(v@ == ValModel::List(mv));
                    if ok {
                        assert forall|k: int| 0 <= k < mv.len() implies value_fits(
                            #[trigger] mv[k],
                            *(*inner),
                        ) by {
                            assert(mv[k] == val_model(elems@[k]));
                            assert(value_fits(val_model(elems@[k]), *(*inner)));
                        }
                        assert(value_fits(v@, *t));
                    } else {
                        let j = choose|j: int|
                            0 <= j < elems@.len() && !value_fits(
                                val_model(#[trigger] elems@[j]),
                                *(*inner),
                            );
                        assert(mv[j] == val_model(elems@[j]));
                        assert(0 <= j < mv.len() && !value_fits(mv[j], *(*inner)));
                        if value_fits(v@, *t) {
                            let elems0 = v@->List_0;
                            assert(elems0 == mv);
                            assert(value_fits(elems0[j], *((*t)->List_0)));
                            assert(value_fits(mv[j], *(*inner)));
                        }
                        assert(!value_fits(v@, *t));
                    }
                }
                ok
            },
            _ => false,
        },
        Value::Opt(o) => match t {
            DeclaredType::Optional(inner) => match o {
                Option::Some(b) => value_fits_exec(b, inner),
                Option::None => true,
            },
            _ => false,
        },
    }
}

} // verus!
