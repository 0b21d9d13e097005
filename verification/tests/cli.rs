//! The command line.

use mycelium_check::cli::{ArgStep, Mode, Options, ProjectDir, USAGE_EXIT_CODE};

/// Reads the arguments; the value of an option is the argument behind it.
fn mode(args: &[&str]) -> Mode {
    let mut options = Options::new();
    let mut args = args.iter().map(|a| a.to_string());
    while let Some(a) = args.next() {
        let step = match options.argument(a) {
            ArgStep::Value(flag) => options.value(flag, args.next()),
            step => step,
        };
        if step == ArgStep::Usage {
            return Mode::Usage;
        }
    }
    options.mode()
}

fn s(text: &str) -> String {
    text.to_owned()
}

#[test]
fn each_mode_is_selected_by_its_input() {
    assert_eq!(mode(&["x.myc"]), Mode::Oracle { path: s("x.myc"), expect_main: None });
    assert_eq!(
        mode(&["--expect-main", "Bytes", "-", "--explain"]),
        Mode::Oracle { path: s("-"), expect_main: Some(s("Bytes")) }
    );
    assert_eq!(
        mode(&["--project", "d", "--explain"]),
        Mode::Project { place: ProjectDir::Dir(s("d")), explain: true }
    );
    assert_eq!(
        mode(&["--config", "d/c.toml"]),
        Mode::Project { place: ProjectDir::OfConfig(s("d/c.toml")), explain: false }
    );
    assert_eq!(
        mode(&["--config", "c", "--project", "d"]),
        Mode::Project { place: ProjectDir::Dir(s("d")), explain: false }
    );
    assert_eq!(mode(&["--phylum", "d"]), Mode::Phylum { dir: s("d"), json: false });
    assert_eq!(mode(&["--json", "--phylum", "d"]), Mode::Phylum { dir: s("d"), json: true });
    assert_eq!(mode(&["--phylum", "c", "--phylum", "d"]), Mode::Phylum { dir: s("d"), json: false });
}

#[test]
fn inputs_of_different_modes_are_not_combined() {
    for args in [
        &[][..],
        &["--explain"],
        &["--expect-main", "T"],
        &["--project"],
        &["--config"],
        &["--phylum"],
        &["x", "--expect-main"],
        &["x", "y"],
        &["x", "--json"],
        &["--project", "d", "--json"],
        &["--project", "d", "x"],
        &["--config", "c", "--expect-main", "T"],
        &["--phylum", "d", "x"],
        &["--phylum", "d", "--project", "e"],
        &["--phylum", "d", "--config", "e"],
        &["--phylum", "d", "--expect-main", "T"],
    ] {
        assert_eq!(mode(args), Mode::Usage, "{args:?}");
    }
    assert_eq!(USAGE_EXIT_CODE, 64);
}
