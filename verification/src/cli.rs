//! The command line of the tool: which mode the arguments select.

use vstd::prelude::*;

use crate::text::{optional_text, same_text};

verus! {

/// An option that takes a value.
#[derive(Debug, Clone, Copy, PartialEq, Eq, Structural)]
pub enum ValueFlag {
    ExpectMain,
    Project,
    Config,
    Phylum,
}

/// What to do after an argument.
#[derive(Debug, Clone, Copy, PartialEq, Eq, Structural)]
pub enum ArgStep {
    /// Go on with the next argument.
    Next,
    /// Take the value of this option, and hand it over with [`Options::value`].
    Value(ValueFlag),
    /// Stop with a usage error.
    Usage,
}

/// The arguments seen so far.
#[derive(Debug, Clone, PartialEq, Eq)]
pub struct Options {
    pub expect_main: Option<String>,
    pub project: Option<String>,
    pub config: Option<String>,
    pub phylum: Option<String>,
    pub explain: bool,
    pub json: bool,
    pub path: Option<String>,
}

/// The contents of [`Options`].
pub struct OptionsView {
    pub expect_main: Option<Seq<char>>,
    pub project: Option<Seq<char>>,
    pub config: Option<Seq<char>>,
    pub phylum: Option<Seq<char>>,
    pub explain: bool,
    pub json: bool,
    pub path: Option<Seq<char>>,
}

impl View for Options {
    type V = OptionsView;

    open spec fn view(&self) -> OptionsView {
        OptionsView {
            expect_main: optional_text(self.expect_main),
            project: optional_text(self.project),
            config: optional_text(self.config),
            phylum: optional_text(self.phylum),
            explain: self.explain,
            json: self.json,
            path: optional_text(self.path),
        }
    }
}

/// Where a project lies.
#[derive(Debug, Clone, PartialEq, Eq)]
pub enum ProjectDir {
    /// In this directory.
    Dir(String),
    /// In the directory of this configuration file.
    OfConfig(String),
}

/// The exit code for a usage error.
pub const USAGE_EXIT_CODE: u8 = 64;

/// What the tool is to do.
#[derive(Debug, Clone, PartialEq, Eq)]
pub enum Mode {
    /// Check a directory as one phylum.
    Phylum { dir: String, json: bool },
    /// Check a whole project.
    Project { place: ProjectDir, explain: bool },
    /// Check a single file.
    Oracle { path: String, expect_main: Option<String> },
    /// Say how the tool is used.
    Usage,
}

/// The contents of a [`Mode`].
pub enum ModeView {
    Phylum { dir: Seq<char>, json: bool },
    ProjectDir { dir: Seq<char>, explain: bool },
    ProjectConfig { config: Seq<char>, explain: bool },
    Oracle { path: Seq<char>, expect_main: Option<Seq<char>> },
    Usage,
}

impl View for Mode {
    type V = ModeView;

    open spec fn view(&self) -> ModeView {
        match self {
            Mode::Phylum { dir, json } => ModeView::Phylum { dir: dir@, json: *json },
            Mode::Project { place: ProjectDir::Dir(dir), explain } => ModeView::ProjectDir {
                dir: dir@,
                explain: *explain,
            },
            Mode::Project {
                place: ProjectDir::OfConfig(config),
                explain,
            } => ModeView::ProjectConfig { config: config@, explain: *explain },
            Mode::Oracle { path, expect_main } => ModeView::Oracle {
                path: path@,
                expect_main: optional_text(*expect_main),
            },
            Mode::Usage => ModeView::Usage,
        }
    }
}

impl OptionsView {
    /// What to do after an argument, and the options with it. What is no option is the path, if
    /// there is none yet.
    pub open spec fn after_argument(self, argument: Seq<char>) -> (OptionsView, ArgStep) {
        if argument == "--expect-main"@ {
            (self, ArgStep::Value(ValueFlag::ExpectMain))
        } else if argument == "--project"@ {
            (self, ArgStep::Value(ValueFlag::Project))
        } else if argument == "--config"@ {
            (self, ArgStep::Value(ValueFlag::Config))
        } else if argument == "--phylum"@ {
            (self, ArgStep::Value(ValueFlag::Phylum))
        } else if argument == "--explain"@ {
            (OptionsView { explain: true, ..self }, ArgStep::Next)
        } else if argument == "--json"@ {
            (OptionsView { json: true, ..self }, ArgStep::Next)
        } else if self.path is None {
            (OptionsView { path: Some(argument), ..self }, ArgStep::Next)
        } else {
            (self, ArgStep::Usage)
        }
    }

    /// The options with a value for one of them. The last value given counts.
    pub open spec fn with_value(self, flag: ValueFlag, value: Seq<char>) -> OptionsView {
        match flag {
            ValueFlag::ExpectMain => OptionsView { expect_main: Some(value), ..self },
            ValueFlag::Project => OptionsView { project: Some(value), ..self },
            ValueFlag::Config => OptionsView { config: Some(value), ..self },
            ValueFlag::Phylum => OptionsView { phylum: Some(value), ..self },
        }
    }

    /// The mode that the options select. Inputs of different modes are not combined, and `--json`
    /// belongs to the phylum mode. Of a project and a configuration file, the project counts.
    pub open spec fn mode(self) -> ModeView {
        if self.phylum is Some {
            if self.path is None && self.expect_main is None && self.project is None
                && self.config is None {
                ModeView::Phylum { dir: self.phylum->0, json: self.json }
            } else {
                ModeView::Usage
            }
        } else if self.json {
            ModeView::Usage
        } else if self.project is Some || self.config is Some {
            if self.path is Some || self.expect_main is Some {
                ModeView::Usage
            } else if self.project is Some {
                ModeView::ProjectDir { dir: self.project->0, explain: self.explain }
            } else {
                ModeView::ProjectConfig { config: self.config->0, explain: self.explain }
            }
        } else if self.path is Some {
            ModeView::Oracle { path: self.path->0, expect_main: self.expect_main }
        } else {
            ModeView::Usage
        }
    }
}

impl Options {
    /// The options before the first argument.
    pub fn new() -> (options: Options)
        ensures
            options@ == (OptionsView {
                expect_main: None,
                project: None,
                config: None,
                phylum: None,
                explain: false,
                json: false,
                path: None,
            }),
    {
        Options {
            expect_main: None,
            project: None,
            config: None,
            phylum: None,
            explain: false,
            json: false,
            path: None,
        }
    }

    /// Takes an argument, and says what to do next.
    pub fn argument(&mut self, argument: String) -> (step: ArgStep)
        ensures
            (final(self)@, step) == old(self)@.after_argument(argument@),
    {
        let text = argument.as_str();
        if same_text(text, "--expect-main") {
            ArgStep::Value(ValueFlag::ExpectMain)
        } else if same_text(text, "--project") {
            ArgStep::Value(ValueFlag::Project)
        } else if same_text(text, "--config") {
            ArgStep::Value(ValueFlag::Config)
        } else if same_text(text, "--phylum") {
            ArgStep::Value(ValueFlag::Phylum)
        } else if same_text(text, "--explain") {
            self.explain = true;
            ArgStep::Next
        } else if same_text(text, "--json") {
            self.json = true;
            ArgStep::Next
        } else if self.path.is_none() {
            self.path = Some(argument);
            ArgStep::Next
        } else {
            ArgStep::Usage
        }
    }

    /// Takes the value of an option, and says what to do next: an option without its value is a
    /// usage error.
    pub fn value(&mut self, flag: ValueFlag, value: Option<String>) -> (step: ArgStep)
        ensures
            match value {
                Some(value) => {
                    &&& step == ArgStep::Next
                    &&& final(self)@ == old(self)@.with_value(flag, value@)
                },
                None => step == ArgStep::Usage && final(self)@ == old(self)@,
            },
    {
        if value.is_none() {
            return ArgStep::Usage;
        }
        match flag {
            ValueFlag::ExpectMain => {
                self.expect_main = value;
            },
            ValueFlag::Project => {
                self.project = value;
            },
            ValueFlag::Config => {
                self.config = value;
            },
            ValueFlag::Phylum => {
                self.phylum = value;
            },
        }
        ArgStep::Next
    }

    /// The mode that the options select.
    pub fn mode(self) -> (mode: Mode)
        ensures
            mode@ == self@.mode(),
    {
        let Options { expect_main, project, config, phylum, explain, json, path } = self;
        if let Some(dir) = phylum {
            if path.is_some() || expect_main.is_some() || project.is_some() || config.is_some() {
                return Mode::Usage;
            }
            return Mode::Phylum { dir, json };
        }
        if json {
            return Mode::Usage;
        }
        if project.is_some() || config.is_some() {
            if path.is_some() || expect_main.is_some() {
                return Mode::Usage;
            }
            if let Some(dir) = project {
                return Mode::Project { place: ProjectDir::Dir(dir), explain };
            }
            if let Some(config) = config {
                return Mode::Project { place: ProjectDir::OfConfig(config), explain };
            }
        }
        match path {
            Some(path) => Mode::Oracle { path, expect_main },
            None => Mode::Usage,
        }
    }
}

/// No input is dropped for that of another mode: a mode is selected only where the inputs of the
/// other modes, and `--json` outside the phylum mode, are absent.
pub proof fn modes_are_not_combined(options: OptionsView)
    ensures
        options.mode() is Phylum ==> {
            &&& options.project is None
            &&& options.config is None
            &&& options.path is None
            &&& options.expect_main is None
        },
        options.mode() is ProjectDir || options.mode() is ProjectConfig ==> {
            &&& options.phylum is None
            &&& options.path is None
            &&& options.expect_main is None
            &&& !options.json
        },
        options.mode() is Oracle ==> {
            &&& options.phylum is None
            &&& options.project is None
            &&& options.config is None
            &&& !options.json
        },
{
}

} // verus!
