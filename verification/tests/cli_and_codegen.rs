use wf::cli::{parse_args, CliArgs, Problem};
use wf::code_gen::_check_for_retired_names;
use wf::error_messages::report;
use wf::language::{from_string, Language};
use wf::run;
use wf::types::{Field, Optionality, Type, TypePrimitive};
use wf::unique_strings;

#[test]
fn language_names_are_case_insensitive() {
    assert_eq!(from_string("javascript"), Some(Language::JavaScript));
    assert_eq!(from_string("JavaScript"), Some(Language::JavaScript));
    assert_eq!(from_string("JAVASCRIPT"), Some(Language::JavaScript));
    assert_eq!(from_string("elm"), Some(Language::Elm));
    assert_eq!(from_string("Elm"), Some(Language::Elm));
    assert_eq!(from_string("ruby"), None);
    assert_eq!(from_string(""), None);
    assert_eq!(from_string("elmx"), None);
}

#[test]
fn parse_args_accepts_valid_languages() {
    let args: CliArgs = parse_args(
        Some(String::from("Elm")),
        None,
        vec![String::from("schema.wf")],
    )
    .unwrap();
    assert_eq!(args.client, Some(Language::Elm));
    assert_eq!(args.server, None);
    assert_eq!(args.file_paths, vec![String::from("schema.wf")]);
}

#[test]
fn parse_args_rejects_unknown_languages() {
    let problem = parse_args(Some(String::from("ruby")), None, vec![]).unwrap_err();
    assert_eq!(problem, Problem::InvalidLanguage(String::from("ruby")));

    let problem = parse_args(None, Some(String::from("cobol")), vec![]).unwrap_err();
    assert_eq!(problem, Problem::InvalidLanguage(String::from("cobol")));
}

#[test]
fn report_names_the_offending_language() {
    let problem = wf::problems::Problem::Cli(Problem::InvalidLanguage(String::from("ruby")));
    assert_eq!(
        report(problem),
        "ruby is not a supported language. Supported languages include JavaScript and Elm."
    );
}

#[test]
fn run_gathers_distinct_file_paths() {
    let (args, uniq) = run(
        None,
        Some(String::from("javascript")),
        vec![
            String::from("a.wf"),
            String::from("b.wf"),
            String::from("a.wf"),
        ],
    )
    .unwrap();
    assert_eq!(args.server, Some(Language::JavaScript));
    assert_eq!(args.file_paths.len(), 3);
    assert_eq!(uniq, vec![String::from("a.wf"), String::from("b.wf")]);
}

#[test]
fn run_reports_cli_problems() {
    let err = run(Some(String::from("ruby")), None, vec![]).unwrap_err();
    assert_eq!(
        err,
        wf::problems::Problem::Cli(Problem::InvalidLanguage(String::from("ruby")))
    );
}

#[test]
fn unique_strings_keeps_first_occurrences() {
    let v = vec![
        String::from("x"),
        String::from("y"),
        String::from("x"),
        String::from("z"),
        String::from("y"),
    ];
    assert_eq!(
        unique_strings(&v),
        vec![String::from("x"), String::from("y"), String::from("z")]
    );
}

fn bool_field(name: &str, field_id: u64) -> Field {
    Field {
        optionality: Optionality::Required,
        name: String::from(name),
        tipe: Type { current: TypePrimitive::Bool, formerly: vec![] },
        field_id,
        fallback: false,
        former_names: vec![],
    }
}

#[test]
fn retired_names_are_flagged_once() {
    let retired = vec![String::from("email"), String::from("ssn")];
    let fields = vec![
        (String::from("email"), bool_field("email", 0)),
        (String::from("name"), bool_field("name", 1)),
        (String::from("email"), bool_field("email", 2)),
        (String::from("ssn"), bool_field("ssn", 3)),
    ];
    let violations = _check_for_retired_names(&retired, &fields);
    assert_eq!(violations, vec![String::from("email"), String::from("ssn")]);
}

#[test]
fn clean_names_produce_no_violations() {
    let retired = vec![String::from("email")];
    let fields = vec![(String::from("name"), bool_field("name", 0))];
    let violations = _check_for_retired_names(&retired, &fields);
    assert_eq!(violations, Vec::<String>::new());
}
