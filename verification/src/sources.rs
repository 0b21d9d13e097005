//! Checking a set of sources one by one: the questions put to the kernel for each, and the report
//! that its answers amount to.
//!
//! A source is parsed; one that parses is checked; a refusal of the checker is put to the
//! diagnostic baseline, which gives it a level and a route.

use vstd::prelude::*;

use crate::diagnostics::{
    aggregate, findings_of, findings_view, is_ordered_by_file, reasoned, reasoned_error,
    replies_view, CheckError, CheckErrorView, Level, LevelView, ReasonedError,
    ReasonedErrorView, Report, SourceReply, SourceReplyView,
};
use crate::phylum::outcome_view;
use crate::text::{copy_sources, optional_text, sources_view};

verus! {

/// What is to be asked of the kernel next.
#[derive(Debug, PartialEq, Eq)]
pub enum SourceAction {
    /// Parse the source at this place.
    Parse(usize),
    /// Check the nodule that the source at this place was parsed into, by itself.
    Check(usize),
    /// Present this refusal.
    Present(ReasonedError),
    /// Nothing: every source has its reply.
    Finished,
}

/// The contents of a [`SourceAction`].
pub enum SourceActionView {
    Parse(int),
    Check(int),
    Present(ReasonedErrorView),
    Finished,
}

impl View for SourceAction {
    type V = SourceActionView;

    open spec fn view(&self) -> SourceActionView {
        match self {
            SourceAction::Parse(i) => SourceActionView::Parse(*i as int),
            SourceAction::Check(i) => SourceActionView::Check(*i as int),
            SourceAction::Present(e) => SourceActionView::Present(e@),
            SourceAction::Finished => SourceActionView::Finished,
        }
    }
}

/// How far the kernel has come with the source in hand.
pub enum Stage {
    /// It is to be parsed.
    Unparsed,
    /// It parses, and is to be checked.
    Parsed,
    /// The checker refuses it, and the refusal is to be presented.
    Refused(CheckErrorView),
}

/// How far the exchange with the kernel has come.
pub struct SourcesProgress {
    /// The labelled sources.
    pub sources: Seq<(Seq<char>, Seq<char>)>,
    /// The replies on the sources so far, in their order.
    pub replies: Seq<SourceReplyView>,
    /// How far the kernel has come with the next source.
    pub stage: Stage,
}

impl SourcesProgress {
    /// The exchange on these sources before the first question.
    pub open spec fn start(sources: Seq<(Seq<char>, Seq<char>)>) -> SourcesProgress {
        SourcesProgress { sources, replies: seq![], stage: Stage::Unparsed }
    }

    /// The question that is open.
    pub open spec fn action(self) -> SourceActionView {
        if self.replies.len() >= self.sources.len() {
            SourceActionView::Finished
        } else {
            match self.stage {
                Stage::Unparsed => SourceActionView::Parse(self.replies.len() as int),
                Stage::Parsed => SourceActionView::Check(self.replies.len() as int),
                Stage::Refused(e) => SourceActionView::Present(reasoned(e)),
            }
        }
    }

    /// The exchange with the reply on the source in hand.
    pub open spec fn with_reply(self, reply: SourceReplyView) -> SourcesProgress {
        SourcesProgress {
            replies: self.replies.push(reply),
            stage: Stage::Unparsed,
            ..self
        }
    }

    /// The exchange after the parser's answer.
    pub open spec fn after_parse(self, answer: Result<(), Seq<char>>) -> SourcesProgress {
        match answer {
            Ok(()) => SourcesProgress { stage: Stage::Parsed, ..self },
            Err(message) => self.with_reply(SourceReplyView::Unparsable { message }),
        }
    }

    /// The exchange after the checker's answer.
    pub open spec fn after_check(self, answer: Result<(), CheckErrorView>) -> SourcesProgress {
        match answer {
            Ok(()) => self.with_reply(SourceReplyView::Accepted),
            Err(e) => SourcesProgress { stage: Stage::Refused(e), ..self },
        }
    }

    /// The exchange after the baseline's answer on the refusal in hand.
    pub open spec fn after_present(
        self,
        level: LevelView,
        route: Option<Seq<char>>,
    ) -> SourcesProgress {
        self.with_reply(
            SourceReplyView::Refused { error: self.stage->Refused_0, level, route },
        )
    }

    /// The sources that have their reply, under their labels.
    pub open spec fn labelled(self) -> Seq<(Seq<char>, SourceReplyView)> {
        Seq::new(self.replies.len(), |i: int| (self.sources[i].0, self.replies[i]))
    }
}

/// An exchange with the kernel over a set of sources, one by one.
#[derive(Debug)]
pub struct SourcesCheck {
    sources: Vec<(String, String)>,
    replies: Vec<(String, SourceReply)>,
    parsed: bool,
    refused: Option<CheckError>,
}

/// What the parser said of a source, as far as it is read here.
pub open spec fn parse_answer(answer: Result<(), String>) -> Result<(), Seq<char>> {
    match answer {
        Ok(()) => Ok(()),
        Err(message) => Err(message@),
    }
}

impl View for SourcesCheck {
    type V = SourcesProgress;

    closed spec fn view(&self) -> SourcesProgress {
        SourcesProgress {
            sources: sources_view(self.sources@),
            replies: self.replies@.map_values(|r: (String, SourceReply)| r.1@),
            stage: match self.refused {
                Some(e) => Stage::Refused(e@),
                None => if self.parsed {
                    Stage::Parsed
                } else {
                    Stage::Unparsed
                },
            },
        }
    }
}

impl SourcesCheck {
    /// Replies are no more than sources, and stand under the labels of the sources.
    #[verifier::type_invariant]
    spec fn inv(self) -> bool {
        &&& self.replies@.len() <= self.sources@.len()
        &&& forall|i: int|
            0 <= i < self.replies@.len() ==> (#[trigger] self.replies@[i]).0@ == self.sources@[i].0@
    }

    /// The question to put to the kernel next.
    pub fn action(&self) -> (action: SourceAction)
        ensures
            action@ == self@.action(),
    {
        let i = self.replies.len();
        if i >= self.sources.len() {
            return SourceAction::Finished;
        }
        match &self.refused {
            Some(e) => SourceAction::Present(reasoned_error(e)),
            None => if self.parsed {
                SourceAction::Check(i)
            } else {
                SourceAction::Parse(i)
            },
        }
    }

    /// The exchange with the reply on the source in hand.
    fn replied(self, reply: SourceReply) -> (next: SourcesCheck)
        requires
            self@.replies.len() < self@.sources.len(),
        ensures
            next@ == self@.with_reply(reply@),
    {
        proof {
            use_type_invariant(&self);
        }
        let ghost before = self@;
        let SourcesCheck { sources, replies, parsed: _, refused: _ } = self;
        let mut replies = replies;
        let label = sources[replies.len()].0.clone();
        replies.push((label, reply));
        let next = SourcesCheck { sources, replies, parsed: false, refused: None };
        assert(next@.replies =~= before.replies.push(reply@));
        next
    }

    /// The exchange after the parser's answer on the source that was asked for.
    pub fn parsed(self, answer: Result<(), String>) -> (next: SourcesCheck)
        requires
            self@.action() is Parse,
        ensures
            next@ == self@.after_parse(parse_answer(answer)),
    {
        proof {
            use_type_invariant(&self);
        }
        match answer {
            Ok(()) => {
                let SourcesCheck { sources, replies, parsed: _, refused } = self;
                SourcesCheck { sources, replies, parsed: true, refused }
            },
            Err(message) => self.replied(SourceReply::Unparsable { message }),
        }
    }

    /// The exchange after the checker's answer on the nodule that was asked for.
    pub fn checked(self, answer: Result<(), CheckError>) -> (next: SourcesCheck)
        requires
            self@.action() is Check,
        ensures
            next@ == self@.after_check(outcome_view(answer)),
    {
        proof {
            use_type_invariant(&self);
        }
        match answer {
            Ok(()) => self.replied(SourceReply::Accepted),
            Err(e) => {
                let SourcesCheck { sources, replies, parsed, refused: _ } = self;
                SourcesCheck { sources, replies, parsed, refused: Some(e) }
            },
        }
    }

    /// The exchange after the baseline's answer on the refusal that was asked for.
    pub fn presented(self, level: Level, route: Option<String>) -> (next: SourcesCheck)
        requires
            self@.action() is Present,
        ensures
            next@ == self@.after_present(level@, optional_text(route)),
    {
        proof {
            use_type_invariant(&self);
        }
        let ghost before = self@;
        let SourcesCheck { sources, replies, parsed, refused } = self;
        match refused {
            Some(error) => {
                let current = SourcesCheck { sources, replies, parsed, refused: None };
                assert(current@.replies == before.replies);
                current.replied(SourceReply::Refused { error, level, route })
            },
            None => SourcesCheck { sources, replies, parsed, refused: None },
        }
    }

    /// The report on the sources that have their reply; on all of them, once there is nothing
    /// left to ask.
    pub fn report(&self) -> (report: Report)
        ensures
            report.files_checked == self@.replies.len(),
            is_ordered_by_file(findings_of(self@.labelled()), findings_view(report.findings@)),
    {
        proof {
            use_type_invariant(self);
            assert(replies_view(self.replies@) =~= self@.labelled());
        }
        aggregate(self.replies.as_slice())
    }
}

/// Check a set of labelled sources one by one: the exchange with the kernel before its first
/// question.
pub fn check_sources(sources: &[(String, String)]) -> (check: SourcesCheck)
    ensures
        check@ == SourcesProgress::start(sources_view(sources@)),
{
    let check = SourcesCheck {
        sources: copy_sources(sources),
        replies: Vec::new(),
        parsed: false,
        refused: None,
    };
    assert(check@.replies =~= seq![]);
    check
}

/// A kernel that answers by the text of a source alone.
pub struct SourceKernel {
    /// What the parser says of a text.
    pub parse: spec_fn(Seq<char>) -> Result<(), Seq<char>>,
    /// What the checker says of the nodule that a text is parsed into.
    pub check: spec_fn(Seq<char>) -> Result<(), CheckErrorView>,
    /// The level and the route that the baseline gives a refusal.
    pub present: spec_fn(ReasonedErrorView) -> (LevelView, Option<Seq<char>>),
}

impl SourceKernel {
    /// The reply on a text.
    pub open spec fn reply(self, text: Seq<char>) -> SourceReplyView {
        match (self.parse)(text) {
            Err(message) => SourceReplyView::Unparsable { message },
            Ok(()) => match (self.check)(text) {
                Ok(()) => SourceReplyView::Accepted,
                Err(error) => {
                    let (level, route) = (self.present)(reasoned(error));
                    SourceReplyView::Refused { error, level, route }
                },
            },
        }
    }

    /// The replies on labelled sources.
    pub open spec fn replies(self, sources: Seq<(Seq<char>, Seq<char>)>) -> Seq<
        (Seq<char>, SourceReplyView),
    > {
        sources.map_values(|s: (Seq<char>, Seq<char>)| (s.0, self.reply(s.1)))
    }
}

impl SourcesProgress {
    /// The exchange one question on, where this kernel answers.
    pub open spec fn step(self, kernel: SourceKernel) -> SourcesProgress {
        match self.action() {
            SourceActionView::Parse(i) => self.after_parse((kernel.parse)(self.sources[i].1)),
            SourceActionView::Check(i) => self.after_check((kernel.check)(self.sources[i].1)),
            SourceActionView::Present(e) => {
                let (level, route) = (kernel.present)(e);
                self.after_present(level, route)
            },
            SourceActionView::Finished => self,
        }
    }

    /// The exchange `n` questions on, where this kernel answers.
    pub open spec fn steps(self, kernel: SourceKernel, n: nat) -> SourcesProgress
        decreases n,
    {
        if n == 0 {
            self
        } else {
            self.step(kernel).steps(kernel, (n - 1) as nat)
        }
    }

    /// Whether all that the exchange holds is what this kernel answers.
    spec fn agrees_with(self, kernel: SourceKernel) -> bool {
        &&& self.replies.len() <= self.sources.len()
        &&& forall|i: int|
            0 <= i < self.replies.len() ==> (#[trigger] self.replies[i]) == kernel.reply(
                self.sources[i].1,
            )
        &&& self.replies.len() < self.sources.len() ==> {
            let text = self.sources[self.replies.len() as int].1;
            match self.stage {
                Stage::Unparsed => true,
                Stage::Parsed => (kernel.parse)(text) is Ok,
                Stage::Refused(e) => {
                    &&& (kernel.parse)(text) is Ok
                    &&& (kernel.check)(text) == Err::<(), CheckErrorView>(e)
                },
            }
        }
    }

    /// How many questions are left at most.
    spec fn left(self) -> int {
        let open = 3 * (self.sources.len() - self.replies.len());
        if open <= 0 {
            0
        } else {
            match self.stage {
                Stage::Unparsed => open,
                Stage::Parsed => open - 1,
                Stage::Refused(_) => open - 2,
            }
        }
    }
}

proof fn lemma_source_steps(p: SourcesProgress, kernel: SourceKernel, n: nat)
    requires
        p.agrees_with(kernel),
        p.left() <= n,
    ensures
        ({
            let end = p.steps(kernel, n);
            &&& end.sources == p.sources
            &&& end.replies.len() == p.sources.len()
            &&& end.agrees_with(kernel)
        }),
    decreases n,
{
    if n > 0 {
        let next = p.step(kernel);
        assert(next.agrees_with(kernel));
        assert(next.left() <= n - 1);
        lemma_source_steps(next, kernel, (n - 1) as nat);
    }
}

/// Whatever a kernel answers to the texts, the exchange ends, after three questions for each source
/// at most; and each source then has the reply that the kernel's answers amount to, under its label.
pub proof fn exchange_ends_with_every_reply(
    sources: Seq<(Seq<char>, Seq<char>)>,
    kernel: SourceKernel,
)
    ensures
        SourcesProgress::start(sources).steps(kernel, 3 * sources.len()).action() is Finished,
        SourcesProgress::start(sources).steps(kernel, 3 * sources.len()).labelled()
            == kernel.replies(sources),
{
    let p = SourcesProgress::start(sources);
    lemma_source_steps(p, kernel, 3 * sources.len());
    let end = p.steps(kernel, 3 * sources.len());
    assert forall|i: int| 0 <= i < sources.len() implies (#[trigger] end.labelled()[i])
        == kernel.replies(sources)[i] by {
        assert(end.replies[i] == kernel.reply(sources[i].1));
    }
    assert(end.labelled() =~= kernel.replies(sources));
}

} // verus!
