//! Laws of types as the surface writes them.

use vstd::prelude::*;
use vstd::string::*;

use crate::laws::texts::joining_goes_part_by_part;
use crate::syntax::{
    base_text, scalar_text, sparsity_text, type_text, type_texts, AmbientParams, BaseType, Scalar,
    Sparsity, Strength, TypeRef,
};
use crate::text::joined;

verus! {

/// A guarantee is written behind the type, and takes nothing from it.
pub proof fn a_guarantee_is_written_behind_the_type(plain: TypeRef, t: TypeRef)
    requires
        plain.base == t.base,
        plain.guarantee is None,
    ensures
        type_text(plain) == base_text(plain.base),
        t.guarantee == Some(Strength::Exact) ==> type_text(t) == type_text(plain) + " @ Exact"@,
        t.guarantee == Some(Strength::Proven) ==> type_text(t) == type_text(plain) + " @ Proven"@,
        t.guarantee == Some(Strength::Empirical) ==> type_text(t) == type_text(plain)
            + " @ Empirical"@,
        t.guarantee == Some(Strength::Declared) ==> type_text(t) == type_text(plain)
            + " @ Declared"@,
        t.guarantee is None ==> type_text(t) == type_text(plain),
{
    reveal_strlit("");
    reveal_with_fuel(type_text, 2);
    assert(base_text(plain.base) + ""@ =~= base_text(plain.base));
}

proof fn lemma_two(a: Seq<char>, b: Seq<char>)
    ensures
        joined(seq![a], ", "@) == a,
        joined(seq![a, b], ", "@) == a + ", "@ + b,
{
    joining_goes_part_by_part(seq![a], seq![b], ", "@);
    joining_goes_part_by_part(seq![b], seq![a], ", "@);
    assert(seq![a] + seq![b] =~= seq![a, b]);
}

proof fn lemma_three(a: Seq<char>, b: Seq<char>, c: Seq<char>)
    ensures
        joined(seq![a, b, c], ", "@) == a + ", "@ + b + ", "@ + c,
{
    lemma_two(a, b);
    lemma_two(c, c);
    joining_goes_part_by_part(seq![a, b], seq![c], ", "@);
    assert(seq![a, b] + seq![c] =~= seq![a, b, c]);
}

/// Representations are written as a name with its parameters in braces.
pub proof fn representations_are_written_in_braces(
    n: String,
    d: String,
    m: String,
    s: Scalar,
    k: Sparsity,
)
    ensures
        base_text(BaseType::Binary(n)) == "Binary{"@ + n@ + "}"@,
        base_text(BaseType::Ternary(n)) == "Ternary{"@ + n@ + "}"@,
        base_text(BaseType::Substrate(n)) == "Substrate{"@ + n@ + "}"@,
        base_text(BaseType::Dense(d, s)) == "Dense{"@ + d@ + ", "@ + scalar_text(s) + "}"@,
        base_text(BaseType::Vsa { model: m, dim: d, sparsity: k }) == "VSA{"@ + m@ + ", "@ + d@
            + ", "@ + sparsity_text(k) + "}"@,
        base_text(BaseType::Bytes) == "Bytes"@,
        base_text(BaseType::Float) == "Float"@,
        base_text(BaseType::Ambient(AmbientParams::Size(n))) == "{"@ + n@ + "}"@,
        base_text(BaseType::Ambient(AmbientParams::Dense(d, s))) == "{"@ + d@ + ", "@ + scalar_text(
            s,
        ) + "}"@,
        base_text(BaseType::Ambient(AmbientParams::Vsa { model: m, dim: d, sparsity: k })) == "{"@
            + m@ + ", "@ + d@ + ", "@ + sparsity_text(k) + "}"@,
        sparsity_text(Sparsity::Dense) == "Dense"@,
        sparsity_text(Sparsity::Sparse(n)) == "Sparse{"@ + n@ + "}"@,
        scalar_text(Scalar::F16) == "F16"@,
        scalar_text(Scalar::Bf16) == "BF16"@,
        scalar_text(Scalar::F32) == "F32"@,
        scalar_text(Scalar::F64) == "F64"@,
{
    reveal_strlit("");
    reveal_strlit("{");
    reveal_strlit("Binary");
    reveal_strlit("Binary{");
    reveal_strlit("Ternary");
    reveal_strlit("Ternary{");
    reveal_strlit("Substrate");
    reveal_strlit("Substrate{");
    reveal_strlit("Dense");
    reveal_strlit("Dense{");
    reveal_strlit("VSA");
    reveal_strlit("VSA{");
    reveal_strlit("Sparse");
    reveal_strlit("Sparse{");
    let none = ""@ + "{"@;
    assert(none =~= "{"@);
    assert("Binary"@ + "{"@ =~= "Binary{"@);
    assert("Ternary"@ + "{"@ =~= "Ternary{"@);
    assert("Substrate"@ + "{"@ =~= "Substrate{"@);
    assert("Dense"@ + "{"@ =~= "Dense{"@);
    assert("VSA"@ + "{"@ =~= "VSA{"@);
    assert("Sparse"@ + "{"@ =~= "Sparse{"@);
    lemma_two(n@, n@);
    lemma_two(d@, scalar_text(s));
    lemma_three(m@, d@, sparsity_text(k));
    assert(base_text(BaseType::Dense(d, s)) =~= "Dense{"@ + d@ + ", "@ + scalar_text(s) + "}"@);
    assert(base_text(BaseType::Vsa { model: m, dim: d, sparsity: k }) =~= "VSA{"@ + m@ + ", "@ + d@
        + ", "@ + sparsity_text(k) + "}"@);
    assert(base_text(BaseType::Ambient(AmbientParams::Dense(d, s))) =~= "{"@ + d@ + ", "@
        + scalar_text(s) + "}"@);
    assert(base_text(BaseType::Ambient(AmbientParams::Vsa { model: m, dim: d, sparsity: k }))
        =~= "{"@ + m@ + ", "@ + d@ + ", "@ + sparsity_text(k) + "}"@);
}

/// The types of a list are written one by one.
pub proof fn types_are_written_one_by_one(ts: Seq<TypeRef>, k: int)
    ensures
        type_texts(ts).len() == ts.len(),
        0 <= k < ts.len() ==> type_texts(ts)[k] == type_text(ts[k]),
    decreases ts.len(),
{
    if ts.len() > 0 {
        types_are_written_one_by_one(ts.drop_last(), k);
        assert(k == ts.len() - 1 || 0 > k || k >= ts.len() || ts.drop_last()[k] == ts[k]);
    }
}

/// Compound types are written around their parts: a tuple in parentheses, arguments in angle
/// brackets, none for a bare name, a sequence with its element and its length.
pub proof fn compound_types_are_written_around_their_parts(
    name: String,
    args: Vec<TypeRef>,
    elem: TypeRef,
    len: String,
)
    ensures
        base_text(BaseType::Tuple(args)) == "("@ + joined(type_texts(args@), ", "@) + ")"@,
        args@.len() == 0 ==> base_text(BaseType::Named(name, args)) == name@,
        args@.len() > 0 ==> base_text(BaseType::Named(name, args)) == name@ + "<"@ + joined(
            type_texts(args@),
            ", "@,
        ) + ">"@,
        base_text(BaseType::Sequence { elem: Box::new(elem), len }) == "Seq{"@ + type_text(elem)
            + ", "@ + len@ + "}"@,
{
    reveal_strlit("{");
    reveal_strlit("Seq");
    reveal_strlit("Seq{");
    assert("Seq"@ + "{"@ =~= "Seq{"@);
    reveal_with_fuel(base_text, 2);
    reveal_with_fuel(type_text, 2);
    lemma_two(type_text(elem), len@);
    assert(base_text(BaseType::Sequence { elem: Box::new(elem), len }) =~= "Seq{"@ + type_text(elem)
        + ", "@ + len@ + "}"@);
}

/// A function type is written with an arrow, which groups to the right: a function type on its left
/// stands in parentheses, any other type does not, and neither does anything on its right.
pub proof fn an_arrow_groups_to_the_right(a: TypeRef, b: TypeRef)
    ensures
        a.base is Fn ==> base_text(BaseType::Fn(Box::new(a), Box::new(b))) == "("@ + type_text(a)
            + ") -> "@ + type_text(b),
        !(a.base is Fn) ==> base_text(BaseType::Fn(Box::new(a), Box::new(b))) == type_text(a)
            + " -> "@ + type_text(b),
{
    reveal_strlit(")");
    reveal_strlit(" -> ");
    reveal_strlit(") -> ");
    reveal_with_fuel(base_text, 2);
    reveal_with_fuel(type_text, 2);
    assert(")"@ + " -> "@ =~= ") -> "@);
    if a.base is Fn {
        assert(base_text(BaseType::Fn(Box::new(a), Box::new(b))) =~= "("@ + type_text(a) + ") -> "@
            + type_text(b));
    }
}

} // verus!
