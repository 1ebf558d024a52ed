use mould::resolver::{reads_output, template_step, LoadStep, TemplateResolver};

fn pair(a: &str, b: &str) -> Option<(String, String)> {
    Some((a.to_string(), b.to_string()))
}

#[test]
fn env_files_pair_with_their_example() {
    assert_eq!(TemplateResolver::discover_pairing("proj/.env", &vec![]), pair("proj/.env.example", "proj/.env"));
    assert_eq!(
        TemplateResolver::discover_pairing("proj/.env.example", &vec![]),
        pair("proj/.env.example", "proj/.env")
    );
    assert_eq!(TemplateResolver::discover_pairing(".env", &vec![]), pair(".env.example", ".env"));
}

#[test]
fn compose_files_pair_with_their_override() {
    assert_eq!(
        TemplateResolver::discover_pairing("d/compose.yml", &vec![]),
        pair("d/compose.yml", "d/compose.override.yml")
    );
    assert_eq!(
        TemplateResolver::discover_pairing("docker-compose.yaml", &vec![]),
        pair("docker-compose.yaml", "docker-compose.override.yml")
    );
}

#[test]
fn template_and_example_suffixes_are_removed() {
    assert_eq!(
        TemplateResolver::discover_pairing("c/config.template.json", &vec![]),
        pair("c/config.template.json", "c/config.json")
    );
    assert_eq!(
        TemplateResolver::discover_pairing("settings.ini.example", &vec![]),
        pair("settings.ini.example", "settings.ini")
    );
}

#[test]
fn an_active_file_finds_an_existing_template() {
    let cands = TemplateResolver::template_candidates("c/config.json");
    assert_eq!(cands, vec!["c/config.json.example".to_string(), "c/config.template.json".to_string()]);
    assert_eq!(TemplateResolver::discover_pairing("c/config.json", &vec![]), None);
    assert_eq!(
        TemplateResolver::discover_pairing("c/config.json", &vec!["c/config.template.json".to_string()]),
        pair("c/config.template.json", "c/config.json")
    );
    assert_eq!(
        TemplateResolver::discover_pairing("c/config.json", &cands),
        pair("c/config.json.example", "c/config.json")
    );
}

#[test]
fn resolve_prefers_the_given_output() {
    assert_eq!(
        TemplateResolver::resolve("a.json", Some("b.json".to_string()), &vec![]),
        ("a.json".to_string(), "b.json".to_string())
    );
    assert_eq!(
        TemplateResolver::resolve("plain.txt", None, &vec![]),
        ("plain.txt".to_string(), "plain.txt".to_string())
    );
    assert_eq!(
        TemplateResolver::resolve(".env", None, &vec![]),
        (".env.example".to_string(), ".env".to_string())
    );
}

#[test]
fn a_session_reads_output_then_template_or_input() {
    assert!(reads_output(true, true));
    assert!(!reads_output(true, false));
    assert!(!reads_output(false, true));
    assert_eq!(template_step(true, true, false), LoadStep::TemplateAsMissing);
    assert_eq!(template_step(true, true, true), LoadStep::MergeTemplate);
    assert_eq!(template_step(true, false, false), LoadStep::ReadInput);
    assert_eq!(template_step(false, true, true), LoadStep::Keep);
}
