//! The oracle: the verdict on a single file, for a harness that reads the first line and the exit
//! code.

use vstd::prelude::*;
use vstd::string::*;

use crate::syntax::{render_type, type_text, FnSig, Item, Nodule};
use crate::text::{decimal, decimal_text, optional_str, optional_text, same_text};

verus! {

/// How far the kernel came with a file.
#[derive(Debug, PartialEq, Eq)]
pub enum OracleReply {
    /// The file cannot be read.
    Unreadable,
    /// The file does not parse.
    Unparsable {
        /// The parser's message.
        message: String,
    },
    /// The file parses, and the checker refuses it.
    Refused {
        /// The checker's refusal, as it shows itself.
        message: String,
    },
    /// The file parses and checks.
    Accepted(Nodule),
}

/// What the tool ends with.
#[derive(Debug, Clone, PartialEq, Eq)]
pub struct Verdict {
    /// The line for standard output, if there is one.
    pub line: Option<String>,
    /// The exit code.
    pub code: u8,
}

/// The contents of a [`Verdict`].
pub struct VerdictView {
    pub line: Option<Seq<char>>,
    pub code: u8,
}

impl View for Verdict {
    type V = VerdictView;

    open spec fn view(&self) -> VerdictView {
        VerdictView { line: optional_text(self.line), code: self.code }
    }
}

/// Whether an item declares the function `main`.
pub open spec fn is_main(item: Item) -> bool {
    match item {
        Item::Fn(f) => f.name@ == "main"@,
        _ => false,
    }
}

/// The signature of the first function `main` among the items, if there is one.
pub open spec fn main_of(items: Seq<Item>) -> Option<FnSig>
    decreases items.len(),
{
    if items.len() == 0 {
        None
    } else if is_main(items[0]) {
        Some(items[0]->Fn_0)
    } else {
        main_of(items.skip(1))
    }
}

/// What stands against a `main` without parameters that returns `expected`, if anything does.
pub open spec fn main_mismatch(main: Option<FnSig>, expected: Seq<char>) -> Option<Seq<char>> {
    match main {
        None => Some(
            "check-error: no `fn main` declared (task requires `fn main() -> "@ + expected
                + "`)"@,
        ),
        Some(f) => if f.value_params != 0 {
            Some(
                "check-error: `main` must be nullary, has "@ + decimal(f.value_params as nat)
                    + " parameter(s)"@,
            )
        } else if type_text(f.ret) != expected {
            Some(
                "check-error: `main` returns "@ + type_text(f.ret) + ", task requires "@
                    + expected,
            )
        } else {
            None
        },
    }
}

/// The verdict on a file by the kernel's reply: 66 where it cannot be read, 2 where it does not
/// parse, 3 where it does not check or its `main` is not the expected one, and else 0.
pub open spec fn oracle_verdict(reply: OracleReply, expect_main: Option<Seq<char>>) -> VerdictView {
    match reply {
        OracleReply::Unreadable => VerdictView { line: None, code: 66 },
        OracleReply::Unparsable { message } => VerdictView {
            line: Some("parse-error: "@ + message@),
            code: 2,
        },
        OracleReply::Refused { message } => VerdictView {
            line: Some("check-error: "@ + message@),
            code: 3,
        },
        OracleReply::Accepted(nodule) => {
            let mismatch = match expect_main {
                Some(expected) => main_mismatch(main_of(nodule.items@), expected),
                None => None,
            };
            match mismatch {
                Some(line) => VerdictView { line: Some(line), code: 3 },
                None => VerdictView { line: Some("ok"@), code: 0 },
            }
        },
    }
}

/// The signature of the first function `main` of a nodule, if there is one.
fn find_main(nodule: &Nodule) -> (main: Option<&FnSig>)
    ensures
        match main {
            Some(f) => main_of(nodule.items@) == Some(*f),
            None => main_of(nodule.items@) is None,
        },
{
    let ghost items = nodule.items@;
    let mut i: usize = 0;
    assert(items.skip(0) =~= items);
    while i < nodule.items.len()
        invariant
            i <= nodule.items.len(),
            items == nodule.items@,
            main_of(items) == main_of(items.skip(i as int)),
        decreases nodule.items.len() - i,
    {
        assert(items.skip(i as int)[0] == items[i as int]);
        assert(items.skip(i as int).skip(1) =~= items.skip(i + 1));
        if let Item::Fn(f) = &nodule.items[i] {
            if same_text(f.name.as_str(), "main") {
                return Some(f);
            }
        }
        i += 1;
    }
    None
}

/// What stands against a `main` without parameters that returns `expected`, if anything does.
fn check_main(main: Option<&FnSig>, expected: &str) -> (mismatch: Option<String>)
    ensures
        optional_text(mismatch) == main_mismatch(
            match main {
                Some(f) => Some(*f),
                None => None,
            },
            expected@,
        ),
{
    match main {
        None => {
            let mut line =
                "check-error: no `fn main` declared (task requires `fn main() -> ".to_owned();
            line.append(expected);
            line.append("`)");
            Some(line)
        },
        Some(f) => {
            if f.value_params != 0 {
                let mut line = "check-error: `main` must be nullary, has ".to_owned();
                line.append(decimal_text(f.value_params).as_str());
                line.append(" parameter(s)");
                return Some(line);
            }
            let got = render_type(&f.ret);
            if same_text(got.as_str(), expected) {
                None
            } else {
                let mut line = "check-error: `main` returns ".to_owned();
                line.append(got.as_str());
                line.append(", task requires ");
                line.append(expected);
                Some(line)
            }
        },
    }
}

/// The verdict on a file by the kernel's reply.
fn judge(reply: OracleReply, expect_main: Option<&str>) -> (verdict: Verdict)
    ensures
        verdict@ == oracle_verdict(reply, optional_str(expect_main)),
{
    match reply {
        OracleReply::Unreadable => Verdict { line: None, code: 66 },
        OracleReply::Unparsable { message } => {
            let mut line = "parse-error: ".to_owned();
            line.append(message.as_str());
            Verdict { line: Some(line), code: 2 }
        },
        OracleReply::Refused { message } => {
            let mut line = "check-error: ".to_owned();
            line.append(message.as_str());
            Verdict { line: Some(line), code: 3 }
        },
        OracleReply::Accepted(nodule) => {
            let mismatch = match expect_main {
                Some(expected) => check_main(find_main(&nodule), expected),
                None => None,
            };
            match mismatch {
                Some(line) => Verdict { line: Some(line), code: 3 },
                None => Verdict { line: Some("ok".to_owned()), code: 0 },
            }
        },
    }
}

/// What is to be done next for the file.
#[derive(Debug, Clone, Copy, PartialEq, Eq, Structural)]
pub enum OracleAction {
    /// Read it.
    Read,
    /// Parse what was read.
    Parse,
    /// Check what was parsed.
    Check,
    /// Nothing: the verdict is there.
    Finished,
}

/// How far the kernel has come with the file.
pub enum OracleStage {
    Unread,
    Unparsed,
    Unchecked(Nodule),
    Done(VerdictView),
}

/// How far the exchange over a file has come.
pub struct OracleProgress {
    /// The return type that `main` must have, if one is expected.
    pub expect_main: Option<Seq<char>>,
    /// How far the kernel has come.
    pub stage: OracleStage,
}

impl OracleProgress {
    /// What is open.
    pub open spec fn action(self) -> OracleAction {
        match self.stage {
            OracleStage::Unread => OracleAction::Read,
            OracleStage::Unparsed => OracleAction::Parse,
            OracleStage::Unchecked(_) => OracleAction::Check,
            OracleStage::Done(_) => OracleAction::Finished,
        }
    }

    /// The exchange with its verdict, by how far the kernel came.
    pub open spec fn done(self, reply: OracleReply) -> OracleProgress {
        OracleProgress { stage: OracleStage::Done(oracle_verdict(reply, self.expect_main)), ..self }
    }

    /// The exchange after the file was read, or could not be.
    pub open spec fn after_read(self, readable: bool) -> OracleProgress {
        if readable {
            OracleProgress { stage: OracleStage::Unparsed, ..self }
        } else {
            self.done(OracleReply::Unreadable)
        }
    }

    /// The exchange after the parser's answer.
    pub open spec fn after_parse(self, answer: Result<Nodule, String>) -> OracleProgress {
        match answer {
            Ok(nodule) => OracleProgress { stage: OracleStage::Unchecked(nodule), ..self },
            Err(message) => self.done(OracleReply::Unparsable { message }),
        }
    }

    /// The exchange after the checker's answer.
    pub open spec fn after_check(self, answer: Result<(), String>) -> OracleProgress {
        match answer {
            Ok(()) => self.done(OracleReply::Accepted(self.stage->Unchecked_0)),
            Err(message) => self.done(OracleReply::Refused { message }),
        }
    }
}

/// An exchange over a single file.
#[derive(Debug)]
pub struct Oracle {
    expect_main: Option<String>,
    was_read: bool,
    nodule: Option<Nodule>,
    verdict: Option<Verdict>,
}

impl View for Oracle {
    type V = OracleProgress;

    closed spec fn view(&self) -> OracleProgress {
        OracleProgress {
            expect_main: optional_text(self.expect_main),
            stage: match (self.verdict, self.nodule) {
                (Some(verdict), _) => OracleStage::Done(verdict@),
                (None, Some(nodule)) => OracleStage::Unchecked(nodule),
                (None, None) => if self.was_read {
                    OracleStage::Unparsed
                } else {
                    OracleStage::Unread
                },
            },
        }
    }
}

/// The verdict on a single file: the exchange before the file is read. With `expect_main`, a file
/// that checks must also declare a `main` without parameters and with that return type.
pub fn run_oracle(expect_main: Option<String>) -> (oracle: Oracle)
    ensures
        oracle@ == (OracleProgress {
            expect_main: optional_text(expect_main),
            stage: OracleStage::Unread,
        }),
{
    Oracle { expect_main, was_read: false, nodule: None, verdict: None }
}

impl Oracle {
    /// What to do next.
    pub fn action(&self) -> (action: OracleAction)
        ensures
            action == self@.action(),
    {
        if self.verdict.is_some() {
            OracleAction::Finished
        } else if self.nodule.is_some() {
            OracleAction::Check
        } else if self.was_read {
            OracleAction::Parse
        } else {
            OracleAction::Read
        }
    }

    /// The exchange with its verdict, by how far the kernel came.
    fn finish(self, reply: OracleReply) -> (next: Oracle)
        ensures
            next@ == self@.done(reply),
    {
        let verdict = judge(
            reply,
            match &self.expect_main {
                Some(expected) => Some(expected.as_str()),
                None => None,
            },
        );
        let Oracle { expect_main, was_read, nodule: _, verdict: _ } = self;
        Oracle { expect_main, was_read, nodule: None, verdict: Some(verdict) }
    }

    /// The exchange after the file was read, or could not be.
    pub fn read(self, readable: bool) -> (next: Oracle)
        requires
            self@.action() is Read,
        ensures
            next@ == self@.after_read(readable),
    {
        if readable {
            let mut next = self;
            next.was_read = true;
            next
        } else {
            self.finish(OracleReply::Unreadable)
        }
    }

    /// The exchange after the parser's answer.
    pub fn parsed(self, answer: Result<Nodule, String>) -> (next: Oracle)
        requires
            self@.action() is Parse,
        ensures
            next@ == self@.after_parse(answer),
    {
        match answer {
            Ok(nodule) => {
                let mut next = self;
                next.nodule = Some(nodule);
                next
            },
            Err(message) => self.finish(OracleReply::Unparsable { message }),
        }
    }

    /// The exchange after the checker's answer.
    pub fn checked(self, answer: Result<(), String>) -> (next: Oracle)
        requires
            self@.action() is Check,
        ensures
            next@ == self@.after_check(answer),
    {
        match answer {
            Ok(()) => {
                let Oracle { expect_main, was_read, nodule, verdict } = self;
                let rest = Oracle { expect_main, was_read, nodule: None, verdict };
                match nodule {
                    Some(nodule) => rest.finish(OracleReply::Accepted(nodule)),
                    None => rest,
                }
            },
            Err(message) => self.finish(OracleReply::Refused { message }),
        }
    }

    /// The verdict, once it is there.
    pub fn verdict(&self) -> (verdict: Option<&Verdict>)
        ensures
            match verdict {
                Some(verdict) => self@.stage == OracleStage::Done(verdict@),
                None => !(self@.stage is Done),
            },
    {
        match &self.verdict {
            Some(verdict) => Some(verdict),
            None => None,
        }
    }
}

/// How far the kernel comes with a file, by whether it can be read and by the answers of the
/// parser and of the checker: each is asked only where the one before had nothing against it.
pub open spec fn reply_of(
    readable: bool,
    parse: Result<Nodule, String>,
    check: Result<(), String>,
) -> OracleReply {
    if !readable {
        OracleReply::Unreadable
    } else {
        match parse {
            Err(message) => OracleReply::Unparsable { message },
            Ok(nodule) => match check {
                Err(message) => OracleReply::Refused { message },
                Ok(()) => OracleReply::Accepted(nodule),
            },
        }
    }
}

/// The exchange ends in the verdict by how far the kernel comes, and what is to be asked after a
/// failure is not asked.
pub proof fn oracle_ends_in_its_verdict(
    expect_main: Option<Seq<char>>,
    readable: bool,
    parse: Result<Nodule, String>,
    check: Result<(), String>,
)
    ensures
        ({
            let start = OracleProgress { expect_main, stage: OracleStage::Unread };
            let read = start.after_read(readable);
            let parsed = if read.action() is Parse {
                read.after_parse(parse)
            } else {
                read
            };
            let end = if parsed.action() is Check {
                parsed.after_check(check)
            } else {
                parsed
            };
            end.stage == OracleStage::Done(
                oracle_verdict(reply_of(readable, parse, check), expect_main),
            )
        }),
{
}

/// The oracle exits with zero, and says `ok`, exactly for a file that the kernel accepts and whose
/// `main`, where one is expected, is there, takes no parameters and returns the expected type.
pub proof fn oracle_accepts_exactly_what_is_asked_for(
    reply: OracleReply,
    expect_main: Option<Seq<char>>,
)
    ensures
        oracle_verdict(reply, expect_main).code == 0 <==> {
            &&& reply is Accepted
            &&& expect_main is Some ==> {
                let main = main_of(reply->Accepted_0.items@);
                &&& main is Some
                &&& main->0.value_params == 0
                &&& type_text(main->0.ret) == expect_main->0
            }
        },
        oracle_verdict(reply, expect_main).code == 0 <==> oracle_verdict(reply, expect_main).line
            == Some("ok"@),
{
    reveal_strlit("ok");
    reveal_strlit("parse-error: ");
    reveal_strlit("check-error: ");
    reveal_strlit("check-error: no `fn main` declared (task requires `fn main() -> ");
    reveal_strlit("check-error: `main` must be nullary, has ");
    reveal_strlit("check-error: `main` returns ");
    if oracle_verdict(reply, expect_main).code != 0 {
        if let Some(line) = oracle_verdict(reply, expect_main).line {
            assert(line.len() > 2);
        }
    }
}

} // verus!
