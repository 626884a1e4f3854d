use worldsong::state_source::{
    generate_source, state_source_text, to_camel_case, GenerateSourceError,
};
use worldsong::toml_text::{format_parse_errors, parse, to_linecol, LocatedError};

fn strings(v: &[&str]) -> Vec<String> {
    v.iter().map(|s| s.to_string()).collect()
}

#[test]
fn camel_case_of_snake_case_names() {
    assert_eq!(to_camel_case("core_state"), "CoreState");
    assert_eq!(to_camel_case("simulation_state"), "SimulationState");
    assert_eq!(to_camel_case("graphics"), "Graphics");
    assert_eq!(to_camel_case(""), "");
}

#[test]
fn camel_case_of_odd_names() {
    assert_eq!(to_camel_case("_a__b"), "AB");
    assert_eq!(to_camel_case("x_"), "X");
    assert_eq!(to_camel_case("a_1b"), "A1b");
    assert_eq!(to_camel_case("already_Up"), "AlreadyUp");
    assert_eq!(to_camel_case("über_ß"), "ÜberS");
}

#[test]
fn state_source_lists_crates_and_structs() {
    let text = state_source_text(
        &strings(&["rand", "sdl2"]),
        &strings(&["core_state", "sim"]),
        "/ws/structs",
    );
    let want = "// ATTENTION: This file is automatically generated. How did you even get here? \n// You should probably modify compile_state.rs, the code that generated this file, instead.\n\n// Dependencies\n#[macro_use]extern crate rand;\n#[macro_use]extern crate sdl2;\n// State structs\npub use core_state::CoreState;\npub use sim::Sim;\n\n#[path = \"/ws/structs/core_state.rs\"]\nmod core_state;\n#[path = \"/ws/structs/sim.rs\"]\nmod sim;\n\ndata! {\n    Data {\n       core_state: CoreState = CoreState::new()\n       sim: Sim = Sim::new()\n    }\n}\n";
    assert_eq!(text, want);
}

#[test]
fn state_source_with_nothing_listed() {
    let text = state_source_text(&Vec::new(), &Vec::new(), "/s");
    let want = "// ATTENTION: This file is automatically generated. How did you even get here? \n// You should probably modify compile_state.rs, the code that generated this file, instead.\n\n// Dependencies\n// State structs\n\n\ndata! {\n    Data {\n    }\n}\n";
    assert_eq!(text, want);
}

#[test]
fn generate_source_takes_dependency_names_in_order() {
    let toml = "[dependencies]\nsdl2 = \"0.2\"\nrand = { version = \"0.3\" }\n";
    let text = generate_source(toml, "/ws/Cargo.toml", &strings(&["core"]), "/ws/structs").unwrap();
    let want = state_source_text(&strings(&["rand", "sdl2"]), &strings(&["core"]), "/ws/structs");
    assert_eq!(text, want);
}

#[test]
fn generate_source_without_dependency_table_pulls_in_nothing() {
    let toml = "dependencies = 3\n";
    let text = generate_source(toml, "/ws/Cargo.toml", &strings(&["core"]), "/ws/structs").unwrap();
    let want = state_source_text(&Vec::new(), &strings(&["core"]), "/ws/structs");
    assert_eq!(text, want);
}

#[test]
fn generate_source_without_dependencies_entry_fails() {
    let toml = "[package]\nname = \"deps\"\n";
    match generate_source(toml, "/ws/Cargo.toml", &Vec::new(), "/ws/structs") {
        Err(GenerateSourceError::NoDependencies(m)) => {
            assert_eq!(m, "No dependencies listed in /ws/Cargo.toml.")
        }
        other => panic!("unexpected result: {:?}", other),
    }
}

#[test]
fn generate_source_reports_syntax_errors() {
    match generate_source("[dependencies\n", "/ws/Cargo.toml", &Vec::new(), "/ws/structs") {
        Err(GenerateSourceError::Parse(report)) => {
            assert!(report.starts_with("could not parse input TOML\n/ws/Cargo.toml:1:"));
            assert!(report.ends_with("\n"));
        }
        other => panic!("unexpected result: {:?}", other),
    }
}

#[test]
fn parse_places_an_unclosed_table_header() {
    let report = parse("[dependencies\n", "/ws/Cargo.toml").unwrap_err();
    assert_eq!(
        report,
        "could not parse input TOML\n/ws/Cargo.toml:1:14-2:1 expected `.`, but found `\n`\n"
    );
}

#[test]
fn parse_accepts_valid_toml() {
    let parsed = parse("[dependencies]\nsdl2 = \"0.2\"\n[package]\nname = \"x\"\n", "Dependencies.toml").unwrap();
    assert!(parsed.table.contains_key("dependencies"));
    let keys: Vec<_> = parsed.outline.iter().map(|e| e.key.clone()).collect();
    assert_eq!(keys, vec!["dependencies", "package"]);
    assert_eq!(parsed.outline[0].table_keys, Some(vec!["sdl2".to_string()]));
    assert_eq!(parsed.outline[1].table_keys, Some(vec!["name".to_string()]));
}

#[test]
fn parse_reports_each_error_with_its_place() {
    let report = parse("a = \n", "x.toml").unwrap_err();
    assert!(report.starts_with("could not parse input TOML\nx.toml:1:"));
    assert_eq!(report.lines().count(), 2);
}

#[test]
fn error_report_formats_ranges() {
    let errors = vec![
        LocatedError { lo_line: 0, lo_col: 4, hi_line: 0, hi_col: 4, desc: "expected a value".to_string() },
        LocatedError { lo_line: 2, lo_col: 0, hi_line: 3, hi_col: 11, desc: "duplicate key".to_string() },
    ];
    assert_eq!(
        format_parse_errors("deps.toml", &errors),
        "could not parse input TOML\ndeps.toml:1:5 expected a value\ndeps.toml:3:1-4:12 duplicate key\n"
    );
    assert_eq!(format_parse_errors("f", &Vec::new()), "could not parse input TOML\n");
}

#[test]
fn camel_case_twice_is_camel_case_once() {
    for name in ["simulation_state", "_a__b", "core", "x_", "already_Up", ""] {
        let once = to_camel_case(name);
        assert_eq!(to_camel_case(&once), once);
    }
}

#[test]
fn line_and_column_agree_with_the_toml_parser() {
    let texts = [
        "",
        "a = 1\n",
        "[dependencies\n",
        "x\r\ny = 2\r\n\nz",
        "caf\u{e9} = \"\u{1f600}\"\nk = 1\r",
        "\n\n\n",
    ];
    for text in texts {
        for offset in 0..text.len() + 3 {
            assert_eq!(
                to_linecol(text, offset),
                toml::Parser::new(text).to_linecol(offset),
                "text {:?} offset {}",
                text,
                offset
            );
        }
    }
}
