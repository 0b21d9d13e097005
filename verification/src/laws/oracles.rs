//! Laws of the oracle: what a single file is told, and what counts as its `main`.

use vstd::prelude::*;
use vstd::string::*;

use crate::oracle::{main_of, oracle_verdict, OracleProgress, OracleReply};
use crate::syntax::{type_text, Item, Nodule};
use crate::text::decimal;

verus! {

/// Whether an item is a function that is called `main`.
pub open spec fn declares_main(item: Item) -> bool {
    item is Fn && item->Fn_0.name@ == seq!['m', 'a', 'i', 'n']
}

proof fn lemma_main_of(items: Seq<Item>, i: int)
    requires
        0 <= i <= items.len(),
        forall|j: int| 0 <= j < i ==> !declares_main(#[trigger] items[j]),
        i < items.len() ==> declares_main(items[i]),
    ensures
        i < items.len() ==> main_of(items) == Some(items[i]->Fn_0),
        i == items.len() ==> main_of(items) is None,
    decreases items.len(),
{
    reveal_strlit("main");
    assert("main"@ =~= seq!['m', 'a', 'i', 'n']);
    if i > 0 {
        assert(!declares_main(items[0]));
        assert forall|j: int| 0 <= j < i - 1 implies !declares_main(
            #[trigger] items.skip(1)[j],
        ) by {
            assert(!declares_main(items[j + 1]));
        }
        lemma_main_of(items.skip(1), i - 1);
    }
}

/// With an expected type, an accepted file is judged by its first function `main`, whatever stands
/// around it: it passes exactly if that takes no parameters and returns what is expected, as the
/// surface writes it. What stands against it is said, the parameters first.
pub proof fn the_first_main_is_judged(nodule: Nodule, expected: Seq<char>, i: int)
    requires
        0 <= i < nodule.items@.len(),
        declares_main(nodule.items@[i]),
        forall|j: int| 0 <= j < i ==> !declares_main(#[trigger] nodule.items@[j]),
    ensures
        ({
            let verdict = oracle_verdict(OracleReply::Accepted(nodule), Some(expected));
            let main = nodule.items@[i]->Fn_0;
            let got = type_text(main.ret);
            &&& main.value_params == 0 && got == expected ==> {
                &&& verdict.code == 0
                &&& verdict.line == Some(seq!['o', 'k'])
            }
            &&& main.value_params != 0 ==> {
                &&& verdict.code == 3
                &&& verdict.line == Some(
                    "check-error: `main` must be nullary, has "@ + decimal(main.value_params as nat)
                        + " parameter(s)"@,
                )
            }
            &&& main.value_params == 0 && got != expected ==> {
                &&& verdict.code == 3
                &&& verdict.line == Some(
                    "check-error: `main` returns "@ + got + ", task requires "@ + expected,
                )
            }
        }),
{
    reveal_strlit("ok");
    assert("ok"@ =~= seq!['o', 'k']);
    lemma_main_of(nodule.items@, i);
}

/// With an expected type, an accepted file without a function `main` does not pass, whatever other
/// functions it declares, and is told so.
pub proof fn a_file_without_main_does_not_pass(nodule: Nodule, expected: Seq<char>)
    requires
        forall|j: int|
            0 <= j < nodule.items@.len() ==> !declares_main(#[trigger] nodule.items@[j]),
    ensures
        oracle_verdict(OracleReply::Accepted(nodule), Some(expected)).code == 3,
        oracle_verdict(OracleReply::Accepted(nodule), Some(expected)).line == Some(
            "check-error: no `fn main` declared (task requires `fn main() -> "@ + expected + "`)"@,
        ),
{
    lemma_main_of(nodule.items@, nodule.items@.len() as int);
}

/// An exit code of zero under an expected type means that the type was found: there is a first
/// function `main`, without parameters, whose return type is written as expected.
pub proof fn a_pass_means_that_main_is_there(reply: OracleReply, expected: Seq<char>) -> (i: int)
    requires
        oracle_verdict(reply, Some(expected)).code == 0,
    ensures
        reply is Accepted,
        0 <= i < reply->Accepted_0.items@.len(),
        declares_main(reply->Accepted_0.items@[i]),
        forall|j: int| 0 <= j < i ==> !declares_main(#[trigger] reply->Accepted_0.items@[j]),
        reply->Accepted_0.items@[i]->Fn_0.value_params == 0,
        type_text(reply->Accepted_0.items@[i]->Fn_0.ret) == expected,
{
    let items = reply->Accepted_0.items@;
    let i = lemma_first_main(items, 0);
    lemma_main_of(items, i);
    i
}

/// The first function `main`, or the end of the items.
proof fn lemma_first_main(items: Seq<Item>, k: int) -> (i: int)
    requires
        0 <= k <= items.len(),
        forall|j: int| 0 <= j < k ==> !declares_main(#[trigger] items[j]),
    ensures
        0 <= i <= items.len(),
        forall|j: int| 0 <= j < i ==> !declares_main(#[trigger] items[j]),
        i < items.len() ==> declares_main(items[i]),
    decreases items.len() - k,
{
    if k < items.len() && !declares_main(items[k]) {
        lemma_first_main(items, k + 1)
    } else {
        k
    }
}

/// Without an expected type, an accepted file passes, whatever it declares.
pub proof fn without_expectations_what_checks_passes(nodule: Nodule)
    ensures
        oracle_verdict(OracleReply::Accepted(nodule), None).code == 0,
        oracle_verdict(OracleReply::Accepted(nodule), None).line == Some(seq!['o', 'k']),
{
    reveal_strlit("ok");
    assert("ok"@ =~= seq!['o', 'k']);
}

/// A file is read, then parsed, then checked, and the first refusal ends it: 66 and no line where it
/// cannot be read, 2 and the parser's message, 3 and the checker's message. What is expected of
/// `main` has no say then.
pub proof fn the_first_refusal_ends_the_oracle(
    start: OracleProgress,
    nodule: Nodule,
    message: String,
)
    requires
        start.stage is Unread,
    ensures
        ({
            let unreadable = start.after_read(false);
            let read = start.after_read(true);
            let unparsable = read.after_parse(Err(message));
            let parsed = read.after_parse(Ok(nodule));
            let refused = parsed.after_check(Err(message));
            let accepted = parsed.after_check(Ok(()));
            &&& start.action() is Read
            &&& read.action() is Parse
            &&& parsed.action() is Check
            &&& unreadable.action() is Finished
            &&& unparsable.action() is Finished
            &&& refused.action() is Finished
            &&& accepted.action() is Finished
            &&& unreadable.stage->Done_0.code == 66
            &&& unreadable.stage->Done_0.line is None
            &&& unparsable.stage->Done_0.code == 2
            &&& unparsable.stage->Done_0.line == Some("parse-error: "@ + message@)
            &&& refused.stage->Done_0.code == 3
            &&& refused.stage->Done_0.line == Some("check-error: "@ + message@)
            &&& accepted.stage->Done_0 == oracle_verdict(
                OracleReply::Accepted(nodule),
                start.expect_main,
            )
        }),
{
}

} // verus!
