//! The oracle, and types as the surface writes them.

use mycelium_check::oracle::{run_oracle, OracleAction, OracleReply, Verdict};
use mycelium_check::syntax::{
    render_type, AmbientParams, BaseType, FnSig, Item, Nodule, Scalar, Sparsity, Strength, TypeRef,
};

fn plain(base: BaseType) -> TypeRef {
    TypeRef { base, guarantee: None }
}

fn named(name: &str) -> TypeRef {
    plain(BaseType::Named(name.to_owned(), vec![]))
}

fn function(a: TypeRef, b: TypeRef) -> TypeRef {
    plain(BaseType::Fn(Box::new(a), Box::new(b)))
}

fn text(base: BaseType) -> String {
    render_type(&plain(base))
}

#[test]
fn each_type_is_written_as_the_surface_does() {
    let s = |s: &str| s.to_owned();
    assert_eq!(text(BaseType::Binary(s("8"))), "Binary{8}");
    assert_eq!(text(BaseType::Ternary(s("6"))), "Ternary{6}");
    assert_eq!(text(BaseType::Tuple(vec![])), "()");
    assert_eq!(text(BaseType::Tuple(vec![named("A"), named("B")])), "(A, B)");
    assert_eq!(text(BaseType::Dense(s("4"), Scalar::F16)), "Dense{4, F16}");
    assert_eq!(text(BaseType::Dense(s("4"), Scalar::Bf16)), "Dense{4, BF16}");
    assert_eq!(text(BaseType::Dense(s("4"), Scalar::F32)), "Dense{4, F32}");
    assert_eq!(text(BaseType::Dense(s("4"), Scalar::F64)), "Dense{4, F64}");
    assert_eq!(
        text(BaseType::Vsa { model: s("MAP"), dim: s("10"), sparsity: Sparsity::Dense }),
        "VSA{MAP, 10, Dense}"
    );
    assert_eq!(
        text(BaseType::Vsa { model: s("MAP"), dim: s("10"), sparsity: Sparsity::Sparse(s("3")) }),
        "VSA{MAP, 10, Sparse{3}}"
    );
    assert_eq!(text(BaseType::Substrate(s("gpu"))), "Substrate{gpu}");
    assert_eq!(
        text(BaseType::Sequence { elem: Box::new(named("T")), len: s("5") }),
        "Seq{T, 5}"
    );
    assert_eq!(text(BaseType::Bytes), "Bytes");
    assert_eq!(text(BaseType::Float), "Float");
    assert_eq!(text(BaseType::Named(s("Map"), vec![named("K"), named("V")])), "Map<K, V>");
    assert_eq!(text(BaseType::Ambient(AmbientParams::Size(s("8")))), "{8}");
    assert_eq!(text(BaseType::Ambient(AmbientParams::Dense(s("8"), Scalar::F32))), "{8, F32}");
    assert_eq!(
        text(BaseType::Ambient(AmbientParams::Vsa {
            model: s("M"),
            dim: s("2"),
            sparsity: Sparsity::Sparse(s("1"))
        })),
        "{M, 2, Sparse{1}}"
    );
}

#[test]
fn guarantees_follow_the_type() {
    for (strength, written) in [
        (Strength::Exact, "Bytes @ Exact"),
        (Strength::Proven, "Bytes @ Proven"),
        (Strength::Empirical, "Bytes @ Empirical"),
        (Strength::Declared, "Bytes @ Declared"),
    ] {
        let t = TypeRef { base: BaseType::Bytes, guarantee: Some(strength) };
        assert_eq!(render_type(&t), written);
    }
}

#[test]
fn the_grouping_of_arrows_is_visible() {
    let left = function(function(named("A"), named("B")), named("C"));
    let right = function(named("A"), function(named("B"), named("C")));
    assert_eq!(render_type(&left), "(A -> B) -> C");
    assert_eq!(render_type(&right), "A -> B -> C");
}

fn main_fn(value_params: usize, ret: TypeRef) -> Item {
    Item::Fn(FnSig { name: "main".to_owned(), value_params, ret })
}

fn accepted(items: Vec<Item>) -> OracleReply {
    OracleReply::Accepted(Nodule { path: vec!["d".to_owned()], items })
}

/// Runs the exchange over a file with which the kernel comes this far.
fn oracle(reply: OracleReply, expect_main: Option<&str>) -> Verdict {
    let mut run = run_oracle(expect_main.map(str::to_owned));
    assert_eq!(run.action(), OracleAction::Read);
    run = match reply {
        OracleReply::Unreadable => run.read(false),
        reply => {
            run = run.read(true);
            assert_eq!(run.action(), OracleAction::Parse);
            match reply {
                OracleReply::Refused { message } => {
                    let nodule = Nodule { path: vec![], items: vec![] };
                    let run = run.parsed(Ok(nodule));
                    assert_eq!(run.action(), OracleAction::Check);
                    run.checked(Err(message))
                }
                OracleReply::Accepted(nodule) => run.parsed(Ok(nodule)).checked(Ok(())),
                OracleReply::Unparsable { message } => run.parsed(Err(message)),
                OracleReply::Unreadable => unreachable!(),
            }
        }
    };
    assert_eq!(run.action(), OracleAction::Finished);
    run.verdict().unwrap().clone()
}

fn ends_with(line: &str, code: u8) -> Verdict {
    Verdict { line: Some(line.to_owned()), code }
}

#[test]
fn the_kernel_decides_first() {
    assert_eq!(
        oracle(OracleReply::Unreadable, Some("Bytes")),
        Verdict { line: None, code: 66 }
    );
    assert_eq!(
        oracle(OracleReply::Unparsable { message: "m".to_owned() }, None),
        ends_with("parse-error: m", 2)
    );
    assert_eq!(
        oracle(OracleReply::Refused { message: "m".to_owned() }, Some("Bytes")),
        ends_with("check-error: m", 3)
    );
    assert_eq!(oracle(accepted(vec![]), None), ends_with("ok", 0));
}

#[test]
fn an_expected_main_must_be_there_and_fit() {
    assert_eq!(
        oracle(accepted(vec![Item::Other]), Some("Bytes")),
        ends_with(
            "check-error: no `fn main` declared (task requires `fn main() -> Bytes`)",
            3
        )
    );
    assert_eq!(
        oracle(accepted(vec![main_fn(12, named("T"))]), Some("T")),
        ends_with("check-error: `main` must be nullary, has 12 parameter(s)", 3)
    );
    assert_eq!(
        oracle(accepted(vec![main_fn(0, named("T"))]), Some("U")),
        ends_with("check-error: `main` returns T, task requires U", 3)
    );
    let helper = Item::Fn(FnSig { name: "g".to_owned(), value_params: 1, ret: named("T") });
    assert_eq!(
        oracle(
            accepted(vec![Item::Other, helper, main_fn(0, named("T")), main_fn(1, named("U"))]),
            Some("T")
        ),
        ends_with("ok", 0)
    );
}
