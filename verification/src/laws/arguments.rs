//! Laws of the command line: what each argument does, and which mode the arguments select.

use vstd::prelude::*;
use vstd::string::*;

use crate::cli::{ArgStep, ModeView, OptionsView, ValueFlag, USAGE_EXIT_CODE};

verus! {

/// Whether an argument is one of the options.
pub open spec fn is_an_option(argument: Seq<char>) -> bool {
    ||| argument == "--expect-main"@
    ||| argument == "--project"@
    ||| argument == "--config"@
    ||| argument == "--phylum"@
    ||| argument == "--explain"@
    ||| argument == "--json"@
}

/// An option with a value asks for it, and changes nothing yet.
pub proof fn an_option_with_a_value_asks_for_it(options: OptionsView)
    ensures
        options.after_argument("--expect-main"@) == (
            options,
            ArgStep::Value(ValueFlag::ExpectMain),
        ),
        options.after_argument("--project"@) == (options, ArgStep::Value(ValueFlag::Project)),
        options.after_argument("--config"@) == (options, ArgStep::Value(ValueFlag::Config)),
        options.after_argument("--phylum"@) == (options, ArgStep::Value(ValueFlag::Phylum)),
{
    reveal_strlit("--expect-main");
    reveal_strlit("--project");
    reveal_strlit("--config");
    reveal_strlit("--phylum");
    assert("--project"@.len() == 9 && "--expect-main"@.len() == 13 && "--config"@.len() == 8
        && "--phylum"@.len() == 8);
    assert("--config"@[2] == 'c' && "--phylum"@[2] == 'p');
}

/// A switch is switched on, and changes nothing else; the next argument may come.
pub proof fn a_switch_is_switched_on(options: OptionsView)
    ensures
        ({
            let (next, step) = options.after_argument("--explain"@);
            &&& step is Next
            &&& next.explain
            &&& next == (OptionsView { explain: next.explain, ..options })
        }),
        ({
            let (next, step) = options.after_argument("--json"@);
            &&& step is Next
            &&& next.json
            &&& next == (OptionsView { json: next.json, ..options })
        }),
{
    reveal_strlit("--expect-main");
    reveal_strlit("--project");
    reveal_strlit("--config");
    reveal_strlit("--phylum");
    reveal_strlit("--explain");
    reveal_strlit("--json");
    assert("--explain"@[2] == 'e' && "--project"@[2] == 'p');
    assert("--explain"@.len() == 9 && "--expect-main"@.len() == 13 && "--json"@.len() == 6);
    assert("--config"@.len() == 8 && "--phylum"@.len() == 8 && "--project"@.len() == 9);
}

/// What is no option is the path, and changes nothing else; a second path is a usage error.
pub proof fn what_is_no_option_is_the_path(options: OptionsView, argument: Seq<char>)
    requires
        !is_an_option(argument),
    ensures
        options.path is None ==> {
            let (next, step) = options.after_argument(argument);
            &&& step is Next
            &&& next.path == Some(argument)
            &&& next == (OptionsView { path: next.path, ..options })
        },
        options.path is Some ==> options.after_argument(argument) == (options, ArgStep::Usage),
{
}

/// A value goes to its option, in the place of an earlier one, and changes nothing else.
pub proof fn a_value_goes_to_its_option(options: OptionsView, value: Seq<char>)
    ensures
        options.with_value(ValueFlag::ExpectMain, value) == (OptionsView {
            expect_main: Some(value),
            project: options.project,
            config: options.config,
            phylum: options.phylum,
            explain: options.explain,
            json: options.json,
            path: options.path,
        }),
        options.with_value(ValueFlag::Project, value) == (OptionsView {
            expect_main: options.expect_main,
            project: Some(value),
            config: options.config,
            phylum: options.phylum,
            explain: options.explain,
            json: options.json,
            path: options.path,
        }),
        options.with_value(ValueFlag::Config, value) == (OptionsView {
            expect_main: options.expect_main,
            project: options.project,
            config: Some(value),
            phylum: options.phylum,
            explain: options.explain,
            json: options.json,
            path: options.path,
        }),
        options.with_value(ValueFlag::Phylum, value) == (OptionsView {
            expect_main: options.expect_main,
            project: options.project,
            config: options.config,
            phylum: Some(value),
            explain: options.explain,
            json: options.json,
            path: options.path,
        }),
{
}

/// The phylum mode is selected exactly by a phylum directory, with or without `--json` and
/// `--explain`, where there is no input of another mode.
pub proof fn a_phylum_alone_is_checked_as_one(options: OptionsView, dir: Seq<char>, json: bool)
    ensures
        options.mode() == (ModeView::Phylum { dir, json }) <==> {
            &&& options.phylum == Some(dir)
            &&& options.json == json
            &&& options.path is None
            &&& options.expect_main is None
            &&& options.project is None
            &&& options.config is None
        },
{
}

/// The project mode is selected exactly by a project directory, or else by a configuration file,
/// where there is no input of another mode and no `--json`.
pub proof fn a_project_alone_is_checked_file_by_file(
    options: OptionsView,
    place: Seq<char>,
    explain: bool,
)
    ensures
        options.mode() == (ModeView::ProjectDir { dir: place, explain }) <==> {
            &&& options.project == Some(place)
            &&& options.explain == explain
            &&& options.phylum is None
            &&& options.path is None
            &&& options.expect_main is None
            &&& !options.json
        },
        options.mode() == (ModeView::ProjectConfig { config: place, explain }) <==> {
            &&& options.config == Some(place)
            &&& options.project is None
            &&& options.explain == explain
            &&& options.phylum is None
            &&& options.path is None
            &&& options.expect_main is None
            &&& !options.json
        },
{
}

/// The oracle mode is selected exactly by a path, with what is expected of `main`, where there is no
/// input of another mode and no `--json`.
pub proof fn a_file_alone_goes_to_the_oracle(
    options: OptionsView,
    path: Seq<char>,
    expect_main: Option<Seq<char>>,
)
    ensures
        options.mode() == (ModeView::Oracle { path, expect_main }) <==> {
            &&& options.path == Some(path)
            &&& options.expect_main == expect_main
            &&& options.phylum is None
            &&& options.project is None
            &&& options.config is None
            &&& !options.json
        },
{
}

/// A usage error has an exit code of its own.
pub proof fn a_usage_error_has_its_own_code()
    ensures
        USAGE_EXIT_CODE == 64,
{
}

} // verus!
