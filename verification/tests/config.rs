use api_gateway::config::{
    find_variable, resolve_placeholder, AppConfig, EnvVar, ServerConfig, BASE_CONFIG_PATH,
    RUN_MODE_VARIABLE,
};

fn vars(pairs: &[(&str, &str)]) -> Vec<EnvVar> {
    pairs
        .iter()
        .map(|(name, value)| EnvVar { name: name.to_string(), value: value.to_string() })
        .collect()
}

fn filled(content: &str, pairs: &[(&str, &str)]) -> String {
    AppConfig::substitute_env_vars(content, &vars(pairs))
}

#[test]
fn text_without_placeholders_stays() {
    assert_eq!(filled("server:\n  port: 8080\n", &[("PORT", "1")]), "server:\n  port: 8080\n");
    assert_eq!(filled("", &[]), "");
    assert_eq!(filled("한글 $ { } $PORT {PORT}", &[("PORT", "1")]), "한글 $ { } $PORT {PORT}");
}

#[test]
fn set_variables_are_filled_in() {
    assert_eq!(filled("port: ${PORT}", &[("PORT", "8080")]), "port: 8080");
    assert_eq!(filled("port: ${PORT:80}", &[("PORT", "8080")]), "port: 8080");
    assert_eq!(filled("${A}${B}-${A}", &[("A", "x"), ("B", "y")]), "xy-x");
    assert_eq!(filled("${PORT:80}", &[("PORT", "")]), "");
}

#[test]
fn missing_variables_take_the_default() {
    assert_eq!(filled("port: ${PORT:80}!", &[]), "port: 80!");
    assert_eq!(filled("[${PORT:}]", &[]), "[]");
    assert_eq!(filled("[${PORT}]", &[]), "[]");
    assert_eq!(filled("${URL:http://127.0.0.1:3000/a?b=c}", &[]), "http://127.0.0.1:3000/a?b=c");
    assert_eq!(filled("${A:x\ny}", &[]), "x\ny");
}

#[test]
fn what_is_filled_in_is_not_searched_again() {
    assert_eq!(filled("${A}", &[("A", "${B}"), ("B", "x")]), "${B}");
    assert_eq!(filled("${A:${B}}", &[("B", "x")]), "${B}");
}

#[test]
fn malformed_placeholders_stay() {
    assert_eq!(filled("${}", &[]), "${}");
    assert_eq!(filled("${:x}", &[]), "${:x}");
    assert_eq!(filled("${A-B}", &[("A", "x")]), "${A-B}");
    assert_eq!(filled("${A", &[("A", "x")]), "${A");
    assert_eq!(filled("${A:b", &[("A", "x")]), "${A:b");
    assert_eq!(filled("${ A}", &[("A", "x")]), "${ A}");
    assert_eq!(filled("$${A}", &[("A", "x")]), "$x");
    assert_eq!(filled("${${A}", &[("A", "x")]), "${x");
    assert_eq!(filled("${A ${A}", &[("A", "x")]), "${A x");
}

#[test]
fn names_are_word_characters() {
    assert_eq!(filled("${a_1}", &[("a_1", "x")]), "x");
    assert_eq!(filled("${포트}", &[("포트", "x")]), "x");
    assert_eq!(filled("${1}", &[("1", "x")]), "x");
    assert_eq!(filled("${a\u{2014}b}", &[]), "${a\u{2014}b}");
}

#[test]
fn first_answer_for_a_name_counts() {
    let list = vars(&[("A", "1"), ("B", "2"), ("A", "3")]);
    assert_eq!(find_variable(&list, "A"), Some("1".to_string()));
    assert_eq!(find_variable(&list, "B"), Some("2".to_string()));
    assert_eq!(find_variable(&list, "C"), None);
    assert_eq!(resolve_placeholder("A", Some("d"), &list), "1");
    assert_eq!(resolve_placeholder("C", Some("d"), &list), "d");
    assert_eq!(resolve_placeholder("C", None, &list), "");
}

#[test]
fn placeholders_ask_for_their_variables() {
    let names = |content: &str| AppConfig::placeholder_names(content);
    assert_eq!(names("a: ${A}\nb: ${B:2} ${포트} $C {D} ${A:x}"), vec!["A", "B", "포트", "A"]);
    assert_eq!(names("${${A} ${:x} ${B-C} ${D"), vec!["A"]);
    assert_eq!(names("${A:${B}}"), vec!["A"]);
    assert!(names("port: 80").is_empty());
}

#[test]
fn spellings_are_matched_by_the_environment() {
    let ask = |name: &str| match name.to_ascii_uppercase().as_str() {
        "PORT" => Some("8080".to_string()),
        _ => None,
    };
    let content = "${port:80} ${PORT:81} ${Other:82}";
    let answers: Vec<EnvVar> = AppConfig::placeholder_names(content)
        .into_iter()
        .filter_map(|name| ask(&name).map(|value| EnvVar { name, value }))
        .collect();
    assert_eq!(AppConfig::substitute_env_vars(content, &answers), "8080 8080 82");
}

#[test]
fn only_asked_variables_matter() {
    let content = "${A} ${B:b}";
    assert_eq!(filled(content, &[("A", "1")]), "1 b");
    assert_eq!(filled(content, &[("C", "3"), ("A", "1"), ("D", "4")]), "1 b");
}

#[test]
fn run_mode_names_the_second_file() {
    assert_eq!(BASE_CONFIG_PATH, "config/application.yml");
    assert_eq!(RUN_MODE_VARIABLE, "RUN_MODE");
    assert_eq!(AppConfig::mode_config_path(Some("prod")), "config/application-prod.yml");
    assert_eq!(AppConfig::mode_config_path(Some("")), "config/application-.yml");
    assert_eq!(AppConfig::mode_config_path(None), "config/application-local.yml");
}

#[test]
fn mode_is_laid_over_base() {
    let list = vars(&[("A", "1")]);
    assert_eq!(
        AppConfig::load_sources("a: ${A}", Some("b: ${B:2}"), &list),
        vec!["a: 1".to_string(), "b: 2".to_string()]
    );
    assert_eq!(AppConfig::load_sources("a: ${A}", None, &list), vec!["a: 1".to_string()]);
}

#[test]
fn address_is_host_and_port() {
    let at = |host: &str, port: u16| ServerConfig { host: host.to_string(), port }.address();
    assert_eq!(at("0.0.0.0", 8080), "0.0.0.0:8080");
    assert_eq!(at("[::1]", 0), "[::1]:0");
    assert_eq!(at("", 65535), ":65535");
    assert_eq!(at("h", 10), "h:10");
}
