//! The JSON-shaped property value: a recursive sum of null, booleans,
//! integers, other numeric literals (carried as rendered text), strings,
//! sequences and string-keyed mappings.
use vstd::prelude::*;

verus! {

/// Mathematical model of a property value.
pub enum SpecValue {
    Null,
    Bool(bool),
    Int(int),
    Number(Seq<char>),
    String(Seq<char>),
    Array(Seq<SpecValue>),
    Object(Seq<(Seq<char>, SpecValue)>),
}

/// A JSON-shaped value. A numeric literal that fits a signed 64-bit integer
/// is held as `Int`; any other number is carried as `Number`, holding the
/// JSON parser's decimal rendering of it. Mappings built by this library
/// keep their fields in insertion order; mappings coming out of the JSON
/// parser arrive in its map's iteration order, sorted by key.
pub enum PropValue {
    Null,
    Bool(bool),
    Int(i64),
    Number(String),
    String(String),
    Array(Vec<PropValue>),
    Object(Vec<(String, PropValue)>),
}

impl View for PropValue {
    type V = SpecValue;

    open spec fn view(&self) -> SpecValue
        decreases self,
    {
        match self {
            PropValue::Null => SpecValue::Null,
            PropValue::Bool(b) => SpecValue::Bool(*b),
            PropValue::Int(i) => SpecValue::Int(*i as int),
            PropValue::Number(s) => SpecValue::Number(s@),
            PropValue::String(s) => SpecValue::String(s@),
            PropValue::Array(vs) => SpecValue::Array(array_view(*vs)),
            PropValue::Object(fs) => SpecValue::Object(object_view(*fs)),
        }
    }
}

/// The sequence of element models held by an array's element vector.
pub open spec fn array_view(vs: Vec<PropValue>) -> Seq<SpecValue>
    decreases vs,
{
    Seq::new(vs.len() as nat, |i: int| if 0 <= i < vs.len() {
        vs[i].view()
    } else {
        SpecValue::Null
    })
}

/// The sequence of field models held by a mapping's field vector.
pub open spec fn object_view(fs: Vec<(String, PropValue)>) -> Seq<(Seq<char>, SpecValue)>
    decreases fs,
{
    Seq::new(fs.len() as nat, |i: int| if 0 <= i < fs.len() {
        (fs[i].0@, fs[i].1.view())
    } else {
        (Seq::empty(), SpecValue::Null)
    })
}

pub broadcast proof fn lemma_array_view_len(vs: Vec<PropValue>)
    ensures
        #[trigger] array_view(vs).len() == vs.len(),
{
}

pub broadcast proof fn lemma_array_view_index(vs: Vec<PropValue>, i: int)
    requires
        0 <= i < vs.len(),
    ensures
        #[trigger] array_view(vs)[i] == vs[i]@,
{
}

pub broadcast proof fn lemma_object_view_len(fs: Vec<(String, PropValue)>)
    ensures
        #[trigger] object_view(fs).len() == fs.len(),
{
}

pub broadcast proof fn lemma_object_view_index(fs: Vec<(String, PropValue)>, i: int)
    requires
        0 <= i < fs.len(),
    ensures
        #[trigger] object_view(fs)[i] == (fs[i].0@, fs[i].1@),
{
}

/// Each variant of a value is modelled by the matching variant of its view.
pub broadcast proof fn lemma_view_variant(v: &PropValue)
    ensures
        #![trigger v.view()]
        (v is Null <==> v@ is Null),
        (v is Bool <==> v@ is Bool),
        (v is Int <==> v@ is Int),
        (v is Number <==> v@ is Number),
        (v is String <==> v@ is String),
        (v is Array <==> v@ is Array),
        (v is Object <==> v@ is Object),
{
    match v {
        PropValue::Null => {
        },
        PropValue::Bool(_) => {
        },
        PropValue::Int(_) => {
        },
        PropValue::Number(_) => {
        },
        PropValue::String(_) => {
        },
        PropValue::Array(_) => {
        },
        PropValue::Object(_) => {
        },
    }
}

pub broadcast group group_value_axioms {
    lemma_array_view_len,
    lemma_array_view_index,
    lemma_object_view_len,
    lemma_object_view_index,
    lemma_view_variant,
}

/// A string value shaped like an expression: enclosed in square brackets.
pub open spec fn spec_bracketed(s: Seq<char>) -> bool {
    s.len() >= 1 && s[0] == '[' && s[s.len() - 1] == ']'
}

/// Whether a string begins with `[` and ends with `]`, the shape that the
/// expression engine interprets.
pub fn is_bracketed(s: &String) -> (r: bool)
    ensures
        r == spec_bracketed(s@),
{
    let n = s.as_str().unicode_len();
    if n == 0 {
        return false;
    }
    let first = s.as_str().get_char(0);
    let last = s.as_str().get_char(n - 1);
    first == '[' && last == ']'
}

/// The escape of a string value: one `[` prepended.
pub open spec fn spec_escape_str(s: Seq<char>) -> Seq<char> {
    seq!['['] + s
}

/// Prepend one `[`, neutralizing a value that looks like an expression.
pub fn escape_string(s: &String) -> (r: String)
    ensures
        r@ == spec_escape_str(s@),
{
    proof {
        reveal_strlit("[");
    }
    let mut r = String::from_str("[");
    r.append(s.as_str());
    proof {
        assert(r@ =~= seq!['['] + s@);
    }
    r
}

/// Whether a string equals a literal key, compared by characters.
pub fn str_is(s: &String, lit: &str) -> (r: bool)
    ensures
        r == (s@ == lit@),
{
    *s == String::from_str(lit)
}

/// A copy of a value, equal to the original at every level.
#[verifier::loop_isolation(false)]
pub fn clone_value(v: &PropValue) -> (r: PropValue)
    ensures
        r@ == v@,
    decreases v,
{
    broadcast use group_value_axioms;

    match v {
        PropValue::Null => PropValue::Null,
        PropValue::Bool(b) => PropValue::Bool(*b),
        PropValue::Int(i) => PropValue::Int(*i),
        PropValue::Number(s) => PropValue::Number(s.clone()),
        PropValue::String(s) => PropValue::String(s.clone()),
        PropValue::Array(vs) => {
            let mut out: Vec<PropValue> = Vec::new();
            let n = vs.len();
            let mut i: usize = 0;
            while i < n
                invariant
                    0 <= i <= n,
                    out.len() == i,
                    forall|j: int| 0 <= j < i ==> #[trigger] out[j]@ == vs[j]@,
                decreases n - i,
            {
                out.push(clone_value(&vs[i]));
                i += 1;
            }
            let r = PropValue::Array(out);
            proof {
                assert(array_view(out) =~= array_view(*vs));
            }
            r
        },
        PropValue::Object(fs) => {
            let mut out: Vec<(String, PropValue)> = Vec::new();
            let n = fs.len();
            let mut i: usize = 0;
            while i < n
                invariant
                    0 <= i <= n,
                    out.len() == i,
                    forall|j: int| 0 <= j < i ==> #[trigger] out[j].0@ == fs[j].0@,
                    forall|j: int| 0 <= j < i ==> #[trigger] out[j].1@ == fs[j].1@,
                decreases n - i,
            {
                out.push((fs[i].0.clone(), clone_value(&fs[i].1)));
                i += 1;
            }
            let r = PropValue::Object(out);
            proof {
                assert(object_view(out) =~= object_view(*fs));
            }
            r
        },
    }
}

/// A copy of a property mapping, equal to the original at every level.
#[verifier::loop_isolation(false)]
pub fn clone_properties(fs: &Vec<(String, PropValue)>) -> (r: Vec<(String, PropValue)>)
    ensures
        object_view(r) == object_view(*fs),
{
    broadcast use group_value_axioms;

    let mut out: Vec<(String, PropValue)> = Vec::new();
    let n = fs.len();
    let mut i: usize = 0;
    while i < n
        invariant
            0 <= i <= n,
            out.len() == i,
            forall|j: int| 0 <= j < i ==> #[trigger] out[j].0@ == fs[j].0@,
            forall|j: int| 0 <= j < i ==> #[trigger] out[j].1@ == fs[j].1@,
        decreases n - i,
    {
        out.push((fs[i].0.clone(), clone_value(&fs[i].1)));
        i += 1;
    }
    proof {
        assert(object_view(out) =~= object_view(*fs));
    }
    out
}

/// Structural equality of two values, decided recursively; this is the
/// deep equality that `allowedValues` constraints are checked with.
#[verifier::loop_isolation(false)]
#[verifier::rlimit(60)]
pub fn deep_eq(a: &PropValue, b: &PropValue) -> (r: bool)
    ensures
        r == (a@ == b@),
    decreases a,
{
    broadcast use group_value_axioms;

    match a {
        PropValue::Null => match b {
            PropValue::Null => true,
            _ => false,
        },
        PropValue::Bool(x) => match b {
            PropValue::Bool(y) => *x == *y,
            _ => false,
        },
        PropValue::Int(x) => match b {
            PropValue::Int(y) => *x == *y,
            _ => false,
        },
        PropValue::Number(x) => match b {
            PropValue::Number(y) => *x == *y,
            _ => false,
        },
        PropValue::String(x) => match b {
            PropValue::String(y) => *x == *y,
            _ => false,
        },
        PropValue::Array(xs) => match b {
            PropValue::Array(ys) => {
                if xs.len() != ys.len() {
                    proof {
                        assert(array_view(*xs).len() == xs.len());
                        assert(array_view(*ys).len() == ys.len());
                    }
                    return false;
                }
                let n = xs.len();
                let mut i: usize = 0;
                while i < n
                    invariant
                        0 <= i <= n,
                        forall|j: int| 0 <= j < i ==> #[trigger] xs[j]@ == ys[j]@,
                    decreases n - i,
                {
                    if !deep_eq(&xs[i], &ys[i]) {
                        proof {
                            assert(array_view(*xs)[i as int] != array_view(*ys)[i as int]);
                        }
                        return false;
                    }
                    i += 1;
                }
                proof {
                    assert(array_view(*xs) =~= array_view(*ys));
                    assert(a@ == b@);
                }
                true
            },
            _ => false,
        },
        PropValue::Object(xs) => match b {
            PropValue::Object(ys) => {
                if xs.len() != ys.len() {
                    proof {
                        assert(object_view(*xs).len() == xs.len());
                        assert(object_view(*ys).len() == ys.len());
                    }
                    return false;
                }
                let n = xs.len();
                let mut i: usize = 0;
                while i < n
                    invariant
                        0 <= i <= n,
                        forall|j: int| 0 <= j < i ==> #[trigger] xs[j].0@ == ys[j].0@,
                        forall|j: int| 0 <= j < i ==> #[trigger] xs[j].1@ == ys[j].1@,
                    decreases n - i,
                {
                    let keys_eq = xs[i].0 == ys[i].0;
                    if !keys_eq || !deep_eq(&xs[i].1, &ys[i].1) {
                        proof {
                            assert(object_view(*xs)[i as int] != object_view(*ys)[i as int]);
                        }
                        return false;
                    }
                    i += 1;
                }
                proof {
                    assert(object_view(*xs) =~= object_view(*ys));
                    assert(a@ == b@);
                }
                true
            },
            _ => false,
        },
    }
}

} // verus!
