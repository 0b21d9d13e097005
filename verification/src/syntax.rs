//! What the driver reads of a parsed nodule, and how the surface writes a type.

use vstd::prelude::*;
use vstd::string::*;

use crate::text::{join, joined, texts};

verus! {

/// A parsed nodule: its declared path and its items, in source order.
#[derive(Debug, PartialEq, Eq)]
pub struct Nodule {
    /// The segments of the declared path (`core.binary` has two).
    pub path: Vec<String>,
    /// The items, in source order.
    pub items: Vec<Item>,
}

/// One item of a nodule, as far as the driver reads it.
#[derive(Debug, PartialEq, Eq)]
pub enum Item {
    /// An import.
    Use(UsePath),
    /// A function declaration.
    Fn(FnSig),
    /// Any other declaration.
    Other,
}

/// An import: `use a.b.Item` names one item of nodule `a.b`, `use a.b.*` all of them.
#[derive(Debug, PartialEq, Eq)]
pub struct UsePath {
    /// Whether the import names another phylum (`use dep::...`).
    pub cross_phylum: bool,
    /// The segments of the path, without the `*` of a glob.
    pub path: Vec<String>,
    /// Whether the import is a glob.
    pub glob: bool,
}

/// The signature of a function, as far as the driver reads it.
#[derive(Debug, PartialEq, Eq)]
pub struct FnSig {
    /// The function's name.
    pub name: String,
    /// How many value parameters it takes.
    pub value_params: usize,
    /// Its declared return type.
    pub ret: TypeRef,
}

/// A declared type, with the guarantee strength that annotates it, if any.
#[derive(Debug, PartialEq, Eq)]
pub struct TypeRef {
    /// The type without its annotation.
    pub base: BaseType,
    /// The annotation.
    pub guarantee: Option<Strength>,
}

/// A guarantee strength.
#[derive(Debug, Clone, Copy, PartialEq, Eq)]
pub enum Strength {
    Exact,
    Proven,
    Empirical,
    Declared,
}

/// The element type of a dense representation.
#[derive(Debug, Clone, Copy, PartialEq, Eq)]
pub enum Scalar {
    F16,
    Bf16,
    F32,
    F64,
}

/// The sparsity of a vector-symbolic representation.
#[derive(Debug, PartialEq, Eq)]
pub enum Sparsity {
    Dense,
    Sparse(String),
}

/// The parameters of a type whose representation is ambient.
#[derive(Debug, PartialEq, Eq)]
pub enum AmbientParams {
    Size(String),
    Dense(String, Scalar),
    Vsa { model: String, dim: String, sparsity: Sparsity },
}

/// A declared type without its annotation. Sizes, dimensions and lengths are held as the surface
/// writes them.
#[derive(Debug, PartialEq, Eq)]
pub enum BaseType {
    Binary(String),
    Ternary(String),
    Tuple(Vec<TypeRef>),
    Dense(String, Scalar),
    Vsa { model: String, dim: String, sparsity: Sparsity },
    Substrate(String),
    Sequence { elem: Box<TypeRef>, len: String },
    Bytes,
    Float,
    Named(String, Vec<TypeRef>),
    Ambient(AmbientParams),
    Fn(Box<TypeRef>, Box<TypeRef>),
}

/// `head{field, field, ...}`.
pub open spec fn braced(head: Seq<char>, fields: Seq<Seq<char>>) -> Seq<char> {
    head + "{"@ + joined(fields, ", "@) + "}"@
}

/// A scalar as the surface writes it.
pub open spec fn scalar_text(scalar: Scalar) -> Seq<char> {
    match scalar {
        Scalar::F16 => "F16"@,
        Scalar::Bf16 => "BF16"@,
        Scalar::F32 => "F32"@,
        Scalar::F64 => "F64"@,
    }
}

/// A sparsity as the surface writes it.
pub open spec fn sparsity_text(sparsity: Sparsity) -> Seq<char> {
    match sparsity {
        Sparsity::Dense => "Dense"@,
        Sparsity::Sparse(k) => braced("Sparse"@, seq![k@]),
    }
}

/// Ambient parameters as the surface writes them.
pub open spec fn ambient_text(params: AmbientParams) -> Seq<char> {
    match params {
        AmbientParams::Size(n) => braced(""@, seq![n@]),
        AmbientParams::Dense(d, s) => braced(""@, seq![d@, scalar_text(s)]),
        AmbientParams::Vsa { model, dim, sparsity } => braced(
            ""@,
            seq![model@, dim@, sparsity_text(sparsity)],
        ),
    }
}

/// A guarantee annotation as the surface writes it behind the type.
pub open spec fn guarantee_text(guarantee: Option<Strength>) -> Seq<char> {
    match guarantee {
        None => ""@,
        Some(Strength::Exact) => " @ Exact"@,
        Some(Strength::Proven) => " @ Proven"@,
        Some(Strength::Empirical) => " @ Empirical"@,
        Some(Strength::Declared) => " @ Declared"@,
    }
}

/// A type as the surface writes it.
pub open spec fn type_text(t: TypeRef) -> Seq<char>
    decreases t,
{
    base_text(t.base) + guarantee_text(t.guarantee)
}

/// The types of a list as the surface writes them.
pub open spec fn type_texts(ts: Seq<TypeRef>) -> Seq<Seq<char>>
    decreases ts,
{
    if ts.len() == 0 {
        seq![]
    } else {
        type_texts(ts.drop_last()).push(type_text(ts.last()))
    }
}

/// A type without its annotation as the surface writes it. The arrow of a function type is
/// right-associative: a function type on its left stands in parentheses.
pub open spec fn base_text(base: BaseType) -> Seq<char>
    decreases base,
{
    match base {
        BaseType::Binary(n) => braced("Binary"@, seq![n@]),
        BaseType::Ternary(m) => braced("Ternary"@, seq![m@]),
        BaseType::Tuple(elems) => "("@ + joined(type_texts(elems@), ", "@) + ")"@,
        BaseType::Dense(d, s) => braced("Dense"@, seq![d@, scalar_text(s)]),
        BaseType::Vsa { model, dim, sparsity } => braced(
            "VSA"@,
            seq![model@, dim@, sparsity_text(sparsity)],
        ),
        BaseType::Substrate(tag) => braced("Substrate"@, seq![tag@]),
        BaseType::Sequence { elem, len } => braced("Seq"@, seq![type_text(*elem), len@]),
        BaseType::Bytes => "Bytes"@,
        BaseType::Float => "Float"@,
        BaseType::Named(name, args) => if args@.len() == 0 {
            name@
        } else {
            name@ + "<"@ + joined(type_texts(args@), ", "@) + ">"@
        },
        BaseType::Ambient(params) => ambient_text(params),
        BaseType::Fn(a, b) => (if a.base is Fn {
            "("@ + type_text(*a) + ")"@
        } else {
            type_text(*a)
        }) + " -> "@ + type_text(*b),
    }
}

/// Writes `head{field, field, ...}`.
fn write_braced(head: &str, fields: &Vec<String>) -> (s: String)
    ensures
        s@ == braced(head@, texts(fields@)),
{
    let mut s = head.to_owned();
    s.append("{");
    s.append(join(fields, ", ").as_str());
    s.append("}");
    s
}

/// Writes `head{field}`.
fn write_one(head: &str, field: &String) -> (s: String)
    ensures
        s@ == braced(head@, seq![field@]),
{
    let fields = vec![field.clone()];
    assert(texts(fields@) =~= seq![field@]);
    write_braced(head, &fields)
}

/// Writes `head{d, scalar}`.
fn write_dense(head: &str, dim: &String, scalar: Scalar) -> (s: String)
    ensures
        s@ == braced(head@, seq![dim@, scalar_text(scalar)]),
{
    let scalar_name = match scalar {
        Scalar::F16 => "F16",
        Scalar::Bf16 => "BF16",
        Scalar::F32 => "F32",
        Scalar::F64 => "F64",
    };
    let fields = vec![dim.clone(), scalar_name.to_owned()];
    assert(texts(fields@) =~= seq![dim@, scalar_text(scalar)]);
    write_braced(head, &fields)
}

/// Writes `head{model, dim, sparsity}`.
fn write_vsa(head: &str, model: &String, dim: &String, sparsity: &Sparsity) -> (s: String)
    ensures
        s@ == braced(head@, seq![model@, dim@, sparsity_text(*sparsity)]),
{
    let sparsity_name = match sparsity {
        Sparsity::Dense => "Dense".to_owned(),
        Sparsity::Sparse(k) => write_one("Sparse", k),
    };
    let fields = vec![model.clone(), dim.clone(), sparsity_name];
    assert(texts(fields@) =~= seq![model@, dim@, sparsity_text(*sparsity)]);
    write_braced(head, &fields)
}

/// Writes each type of a list the way the surface does.
fn render_types(ts: &Vec<TypeRef>) -> (rendered: Vec<String>)
    ensures
        texts(rendered@) == type_texts(ts@),
    decreases ts,
{
    let mut rendered: Vec<String> = Vec::new();
    let mut i: usize = 0;
    while i < ts.len()
        invariant
            i <= ts.len(),
            texts(rendered@) == type_texts(ts@.take(i as int)),
        decreases ts.len() - i,
    {
        let one = render_type(&ts[i]);
        assert(ts@.take(i + 1).drop_last() =~= ts@.take(i as int));
        let ghost before = rendered@;
        rendered.push(one);
        assert(texts(rendered@) =~= texts(before).push(one@));
        i += 1;
    }
    assert(ts@.take(ts.len() as int) =~= ts@);
    rendered
}

/// Writes a declared type the way the surface does.
pub fn render_type(t: &TypeRef) -> (s: String)
    ensures
        s@ == type_text(*t),
    decreases t,
{
    let mut s = match &t.base {
        BaseType::Binary(n) => write_one("Binary", n),
        BaseType::Ternary(m) => write_one("Ternary", m),
        BaseType::Tuple(elems) => {
            let inner = render_types(elems);
            let mut s = "(".to_owned();
            s.append(join(&inner, ", ").as_str());
            s.append(")");
            s
        },
        BaseType::Dense(d, scalar) => write_dense("Dense", d, *scalar),
        BaseType::Vsa { model, dim, sparsity } => write_vsa("VSA", model, dim, sparsity),
        BaseType::Substrate(tag) => write_one("Substrate", tag),
        BaseType::Sequence { elem, len } => {
            let fields = vec![render_type(elem), len.clone()];
            assert(texts(fields@) =~= seq![type_text(**elem), len@]);
            write_braced("Seq", &fields)
        },
        BaseType::Bytes => "Bytes".to_owned(),
        BaseType::Float => "Float".to_owned(),
        BaseType::Named(name, args) => {
            let mut s = name.clone();
            if args.len() > 0 {
                let inner = render_types(args);
                s.append("<");
                s.append(join(&inner, ", ").as_str());
                s.append(">");
            }
            s
        },
        BaseType::Ambient(params) => match params {
            AmbientParams::Size(n) => write_one("", n),
            AmbientParams::Dense(d, scalar) => write_dense("", d, *scalar),
            AmbientParams::Vsa { model, dim, sparsity } => write_vsa("", model, dim, sparsity),
        },
        BaseType::Fn(a, b) => {
            let lhs = render_type(a);
            let mut s = match a.base {
                BaseType::Fn(..) => {
                    let mut s = "(".to_owned();
                    s.append(lhs.as_str());
                    s.append(")");
                    s
                },
                _ => lhs,
            };
            s.append(" -> ");
            s.append(render_type(b).as_str());
            s
        },
    };
    s.append(
        match t.guarantee {
            None => "",
            Some(Strength::Exact) => " @ Exact",
            Some(Strength::Proven) => " @ Proven",
            Some(Strength::Empirical) => " @ Empirical",
            Some(Strength::Declared) => " @ Declared",
        },
    );
    s
}

/// The text of a function type's left side: in parentheses where it is a function type itself.
pub open spec fn arrow_left_text(a: TypeRef) -> Seq<char> {
    if a.base is Fn {
        "("@ + type_text(a) + ")"@
    } else {
        type_text(a)
    }
}

/// A text behind an opening parenthesis is not the text in front of a space.
proof fn lemma_shifted_by_parenthesis(left: Seq<char>, s: Seq<char>, right: Seq<char>, n: int)
    requires
        0 <= n <= s.len(),
        left.len() > s.len(),
        right.len() > s.len(),
        left[0] == '(',
        forall|i: int| 0 <= i < s.len() ==> left[i + 1] == #[trigger] s[i],
        forall|i: int| 0 <= i < s.len() ==> right[i] == #[trigger] s[i],
        left == right,
    ensures
        left[n] == '(',
    decreases n,
{
    if n > 0 {
        lemma_shifted_by_parenthesis(left, s, right, n - 1);
        assert(left[n] == s[n - 1]);
        assert(right[n - 1] == s[n - 1]);
    }
}

/// How a function type groups can be read off its text: `(A -> B) -> C` and `A -> (B -> C)` are
/// written differently, whatever `A`, `B` and `C` are.
pub proof fn arrow_grouping_is_visible(
    a: TypeRef,
    b: TypeRef,
    c: TypeRef,
    g: Option<Strength>,
    h: Option<Strength>,
)
    ensures
        base_text(
            BaseType::Fn(
                Box::new(
                    TypeRef { base: BaseType::Fn(Box::new(a), Box::new(b)), guarantee: g },
                ),
                Box::new(c),
            ),
        ) != base_text(
            BaseType::Fn(
                Box::new(a),
                Box::new(
                    TypeRef { base: BaseType::Fn(Box::new(b), Box::new(c)), guarantee: h },
                ),
            ),
        ),
{
    let ab = TypeRef { base: BaseType::Fn(Box::new(a), Box::new(b)), guarantee: g };
    let bc = TypeRef { base: BaseType::Fn(Box::new(b), Box::new(c)), guarantee: h };
    let left = base_text(BaseType::Fn(Box::new(ab), Box::new(c)));
    let right = base_text(BaseType::Fn(Box::new(a), Box::new(bc)));
    let s = arrow_left_text(a);
    reveal_strlit("(");
    reveal_strlit(")");
    reveal_strlit(" -> ");
    reveal_with_fuel(type_text, 2);
    reveal_with_fuel(base_text, 3);
    assert(base_text(ab.base) == s + " -> "@ + type_text(b));
    assert(left == "("@ + type_text(ab) + ")"@ + " -> "@ + type_text(c));
    assert(right == s + " -> "@ + type_text(bc));
    if left == right {
        assert forall|i: int| 0 <= i < s.len() implies left[i + 1] == #[trigger] s[i] by {
            assert(type_text(ab)[i] == s[i]);
        }
        lemma_shifted_by_parenthesis(left, s, right, s.len() as int);
        assert(right[s.len() as int] == ' ');
    }
}

} // verus!
