//! The configuration of the gateway: what it holds, which files it comes from
//! and how `${NAME}` and `${NAME:default}` in them are filled in.

use crate::text;
use vstd::prelude::*;
use vstd::string::*;

verus! {

/// The configuration of the gateway.
#[derive(Debug, Clone)]
pub struct AppConfig {
    pub server: ServerConfig,
    pub logging: LoggingConfig,
    pub gateway: GatewayConfig,
}

/// Where the gateway listens.
#[derive(Debug, Clone)]
pub struct ServerConfig {
    pub port: u16,
    pub host: String,
}

/// What the gateway logs.
#[derive(Debug, Clone)]
pub struct LoggingConfig {
    pub level: String,
}

/// Which requests go where.
#[derive(Debug, Clone)]
pub struct GatewayConfig {
    pub routes: Vec<Route>,
}

/// A backend and the requests that go there.
#[derive(Debug, Clone)]
pub struct Route {
    pub id: String,
    pub uri: String,
    pub predicates: Vec<Predicate>,
}

/// Which requests a route takes.
#[derive(Debug, Clone)]
pub enum Predicate {
    /// Those on a path, in which `/**` stands for any tail.
    Path(String),
}

/// An answer of the environment: a variable, spelled as it was asked for, and
/// its value. Which spellings name one variable is for the environment to say.
#[derive(Debug, Clone)]
pub struct EnvVar {
    pub name: String,
    pub value: String,
}

/// The file that every configuration starts from.
pub const BASE_CONFIG_PATH: &'static str = "config/application.yml";

/// The variable that names the run mode.
pub const RUN_MODE_VARIABLE: &'static str = "RUN_MODE";

/// The regular expression of a placeholder. The first group is the name of the
/// variable, the third the default.
pub const PLACEHOLDER: &'static str = r"\$\{(\w+)(:([^}]*))?\}";

/// Whether a character outside ASCII is a word character of the `regex` crate,
/// one that `\w` matches.
pub uninterp spec fn unicode_word_char(c: char) -> bool;

/// Whether `\w` matches a character, given which characters outside ASCII it
/// matches.
pub open spec fn is_word_char(c: char, beyond_ascii: spec_fn(char) -> bool) -> bool {
    if c >= '\u{80}' {
        beyond_ascii(c)
    } else {
        'a' <= c <= 'z' || 'A' <= c <= 'Z' || '0' <= c <= '9' || c == '_'
    }
}

/// The number of word characters that `text` starts with.
pub open spec fn word_len(text: Seq<char>, beyond_ascii: spec_fn(char) -> bool) -> nat
    decreases text.len(),
{
    if text.len() > 0 && is_word_char(text[0], beyond_ascii) {
        1 + word_len(text.skip(1), beyond_ascii)
    } else {
        0
    }
}

/// The number of characters of `text` before its first closing brace.
pub open spec fn brace_free_len(text: Seq<char>) -> nat
    decreases text.len(),
{
    if text.len() > 0 && text[0] != '}' {
        1 + brace_free_len(text.skip(1))
    } else {
        0
    }
}

/// A placeholder: the name of its variable, its default and its length.
pub struct Placeholder {
    pub name: Seq<char>,
    pub default: Option<Seq<char>>,
    pub len: int,
}

/// The placeholder that `text` starts with, if it starts with one: `${`, a
/// name of word characters, optionally a colon and a default without a closing
/// brace, then `}`.
pub open spec fn placeholder(text: Seq<char>, beyond_ascii: spec_fn(char) -> bool) -> Option<
    Placeholder,
> {
    let end: int = 2 + word_len(text.skip(2), beyond_ascii) as int;
    let stop: int = end + 1 + brace_free_len(text.skip(end + 1)) as int;
    if text.len() < 2 || text[0] != '$' || text[1] != '{' || end == 2 || end >= text.len() {
        None
    } else if text[end] == '}' {
        Some(Placeholder { name: text.subrange(2, end), default: None, len: end + 1 })
    } else if text[end] == ':' && stop < text.len() {
        Some(
            Placeholder {
                name: text.subrange(2, end),
                default: Some(text.subrange(end + 1, stop)),
                len: stop + 1,
            },
        )
    } else {
        None
    }
}

/// The first answer for that name.
pub open spec fn variable(vars: Seq<EnvVar>, name: Seq<char>) -> Option<Seq<char>>
    decreases vars.len(),
{
    if vars.len() == 0 {
        None
    } else if vars[0].name@ == name {
        Some(vars[0].value@)
    } else {
        variable(vars.skip(1), name)
    }
}

/// The environment that these answers come from, as far as they tell.
pub open spec fn answers(vars: Seq<EnvVar>) -> spec_fn(Seq<char>) -> Option<Seq<char>> {
    |name: Seq<char>| variable(vars, name)
}

/// What stands in place of a placeholder: the value that the environment gives
/// the variable, else the default, else nothing.
pub open spec fn resolved(
    name: Seq<char>,
    default: Option<Seq<char>>,
    environment: spec_fn(Seq<char>) -> Option<Seq<char>>,
) -> Seq<char> {
    match environment(name) {
        Some(value) => value,
        None => match default {
            Some(d) => d,
            None => Seq::empty(),
        },
    }
}

/// `content` with every placeholder filled in, from the left. What is filled
/// in is not searched again.
pub open spec fn substituted(
    content: Seq<char>,
    beyond_ascii: spec_fn(char) -> bool,
    environment: spec_fn(Seq<char>) -> Option<Seq<char>>,
) -> Seq<char>
    decreases content.len(),
{
    if content.len() == 0 {
        Seq::empty()
    } else {
        match placeholder(content, beyond_ascii) {
            Some(found) => resolved(found.name, found.default, environment) + substituted(
                content.skip(found.len),
                beyond_ascii,
                environment,
            ),
            None => seq![content[0]] + substituted(content.skip(1), beyond_ascii, environment),
        }
    }
}

/// The variables that `content` asks for, in the order of its placeholders.
pub open spec fn asked_names(
    content: Seq<char>,
    beyond_ascii: spec_fn(char) -> bool,
) -> Seq<Seq<char>>
    decreases content.len(),
{
    if content.len() == 0 {
        Seq::empty()
    } else {
        match placeholder(content, beyond_ascii) {
            Some(found) => seq![found.name] + asked_names(content.skip(found.len), beyond_ascii),
            None => asked_names(content.skip(1), beyond_ascii),
        }
    }
}

/// The first answer for that name.
pub fn find_variable(vars: &Vec<EnvVar>, name: &str) -> (r: Option<String>)
    ensures
        match r {
            Some(value) => variable(vars@, name@) == Some(value@),
            None => variable(vars@, name@) is None,
        },
{
    let mut i: usize = 0;
    assert(vars@.skip(0) == vars@);
    while i < vars.len()
        invariant
            i <= vars@.len(),
            variable(vars@.skip(i as int), name@) == variable(vars@, name@),
        decreases vars@.len() - i,
    {
        if *vars[i].name.as_str() == *name {
            return Some(vars[i].value.clone());
        }
        assert(vars@.skip(i as int).skip(1) == vars@.skip(i + 1));
        i = i + 1;
    }
    None
}

/// What stands in place of a placeholder.
pub fn resolve_placeholder(name: &str, default: Option<&str>, vars: &Vec<EnvVar>) -> (r: String)
    ensures
        r@ == resolved(
            name@,
            match default {
                Some(d) => Some(d@),
                None => None,
            },
            answers(vars@),
        ),
{
    match find_variable(vars, name) {
        Some(value) => value,
        None => match default {
            Some(d) => d.to_owned(),
            None => String::new(),
        },
    }
}

/// Calls `Regex::new` and `Regex::replace_all` with the regular expression of a
/// placeholder: the matches are found from the left and without overlap, each
/// is replaced by what `resolve_placeholder` makes of its groups, and the text
/// between them stays.
#[verifier::external_body]
fn replace_placeholders(pattern: &str, content: &str, vars: &Vec<EnvVar>) -> (r: String)
    requires
        pattern@ == PLACEHOLDER@,
    ensures
        r@ == substituted(content@, |c: char| unicode_word_char(c), answers(vars@)),
{
    let regex = regex::Regex::new(pattern).unwrap();
    regex.replace_all(
        content,
        |groups: &regex::Captures<'_>|
            resolve_placeholder(&groups[1], groups.get(3).map(|group| group.as_str()), vars),
    ).to_string()
}

/// Calls `Regex::new` and `Regex::captures_iter` with the regular expression of
/// a placeholder, which yields the matches that `Regex::replace_all` replaces,
/// in their order, and keeps the first group of each.
#[verifier::external_body]
fn capture_names(pattern: &str, content: &str) -> (r: Vec<String>)
    requires
        pattern@ == PLACEHOLDER@,
    ensures
        r@.map_values(|name: String| name@) == asked_names(
            content@,
            |c: char| unicode_word_char(c),
        ),
{
    let regex = regex::Regex::new(pattern).unwrap();
    regex.captures_iter(content).map(|groups| groups[1].to_string()).collect()
}

/// The file of a run mode; the mode is `local` where none is set.
pub open spec fn mode_path(run_mode: Option<Seq<char>>) -> Seq<char> {
    let mode = match run_mode {
        Some(value) => value,
        None => "local"@,
    };
    "config/application-"@ + mode + ".yml"@
}

impl AppConfig {
    /// The path of the file that is laid over the base configuration, given the
    /// value of the variable that names the run mode, where it is set.
    pub fn mode_config_path(run_mode: Option<&str>) -> (r: String)
        ensures
            r@ == mode_path(
                match run_mode {
                    Some(mode) => Some(mode@),
                    None => None,
                },
            ),
    {
        let mode = match run_mode {
            Some(mode) => mode,
            None => "local",
        };
        "config/application-".to_owned().concat(mode).concat(".yml")
    }

    /// The variables whose values the placeholders of a configuration file ask
    /// for, in their order.
    pub fn placeholder_names(content: &str) -> (r: Vec<String>)
        ensures
            r@.map_values(|name: String| name@) == asked_names(
                content@,
                |c: char| unicode_word_char(c),
            ),
    {
        capture_names(PLACEHOLDER, content)
    }

    /// Fills in the placeholders of a configuration file with the answers for
    /// the variables that it asks for.
    pub fn substitute_env_vars(content: &str, vars: &Vec<EnvVar>) -> (r: String)
        ensures
            r@ == substituted(content@, |c: char| unicode_word_char(c), answers(vars@)),
    {
        replace_placeholders(PLACEHOLDER, content, vars)
    }

    /// The texts that make up the configuration, a later one laid over an
    /// earlier: the base file, then the file of the run mode, if there is one,
    /// with their placeholders filled in.
    pub fn load_sources(base_yaml: &str, mode_yaml: Option<&str>, vars: &Vec<EnvVar>) -> (r: Vec<
        String,
    >)
        ensures
            ({
                let base = substituted(base_yaml@, |c: char| unicode_word_char(c), answers(vars@));
                r@.map_values(|source: String| source@) == match mode_yaml {
                    Some(mode) => seq![
                        base,
                        substituted(mode@, |c: char| unicode_word_char(c), answers(vars@)),
                    ],
                    None => seq![base],
                }
            }),
    {
        let mut sources: Vec<String> = Vec::new();
        sources.push(Self::substitute_env_vars(base_yaml, vars));
        if let Some(mode) = mode_yaml {
            sources.push(Self::substitute_env_vars(mode, vars));
        }
        sources
    }
}

impl ServerConfig {
    /// The address to listen on: the host, a colon and the port.
    pub fn address(&self) -> (r: String)
        ensures
            r@ == self.host@ + seq![':'] + text::decimal(self.port as nat),
    {
        let mut address = self.host.clone();
        address.push(':');
        address.append(text::decimal_text(self.port).as_str());
        assert(address@ == self.host@ + seq![':'] + text::decimal(self.port as nat));
        address
    }
}

/// A placeholder as it is written.
pub open spec fn written(name: Seq<char>, default: Option<Seq<char>>) -> Seq<char> {
    match default {
        Some(d) => seq!['$', '{'] + name + seq![':'] + d + seq!['}'],
        None => seq!['$', '{'] + name + seq!['}'],
    }
}

/// The word characters before a character that is none.
proof fn lemma_word_len(name: Seq<char>, rest: Seq<char>, beyond_ascii: spec_fn(char) -> bool)
    requires
        forall|i: int| 0 <= i < name.len() ==> is_word_char(#[trigger] name[i], beyond_ascii),
        rest.len() > 0,
        !is_word_char(rest[0], beyond_ascii),
    ensures
        word_len(name + rest, beyond_ascii) == name.len(),
    decreases name.len(),
{
    if name.len() == 0 {
        assert(name + rest == rest);
    } else {
        assert((name + rest)[0] == name[0]);
        assert((name + rest).skip(1) == name.skip(1) + rest);
        lemma_word_len(name.skip(1), rest, beyond_ascii);
    }
}

/// The characters before a closing brace.
proof fn lemma_brace_free_len(default: Seq<char>, rest: Seq<char>)
    requires
        !default.contains('}'),
        rest.len() > 0,
        rest[0] == '}',
    ensures
        brace_free_len(default + rest) == default.len(),
    decreases default.len(),
{
    if default.len() == 0 {
        assert(default + rest == rest);
    } else {
        assert(default[0] != '}');
        assert((default + rest)[0] == default[0]);
        assert((default + rest).skip(1) == default.skip(1) + rest);
        assert(!default.skip(1).contains('}')) by {
            if default.skip(1).contains('}') {
                let i = choose|i: int|
                    0 <= i < default.skip(1).len() && default.skip(1)[i] == '}';
                assert(default[i + 1] == '}');
            }
        }
        lemma_brace_free_len(default.skip(1), rest);
    }
}

/// A text without placeholders stays as it is.
pub proof fn law_text_without_placeholders_stays(
    content: Seq<char>,
    beyond_ascii: spec_fn(char) -> bool,
    environment: spec_fn(Seq<char>) -> Option<Seq<char>>,
)
    requires
        forall|i: int|
            0 <= i < content.len() ==> placeholder(#[trigger] content.skip(i), beyond_ascii)
                is None,
    ensures
        substituted(content, beyond_ascii, environment) == content,
    decreases content.len(),
{
    if content.len() > 0 {
        assert(content.skip(0) == content);
        assert forall|i: int| 0 <= i < content.skip(1).len() implies placeholder(
            #[trigger] content.skip(1).skip(i),
            beyond_ascii,
        ) is None by {
            assert(content.skip(1).skip(i) == content.skip(i + 1));
        }
        law_text_without_placeholders_stays(content.skip(1), beyond_ascii, environment);
        assert(content == seq![content[0]] + content.skip(1));
    }
}

/// A text without a dollar sign stays as it is, whatever follows it.
pub proof fn law_text_before_a_dollar_sign_stays(
    before: Seq<char>,
    rest: Seq<char>,
    beyond_ascii: spec_fn(char) -> bool,
    environment: spec_fn(Seq<char>) -> Option<Seq<char>>,
)
    requires
        !before.contains('$'),
    ensures
        substituted(before + rest, beyond_ascii, environment) == before + substituted(
            rest,
            beyond_ascii,
            environment,
        ),
        asked_names(before + rest, beyond_ascii) == asked_names(rest, beyond_ascii),
    decreases before.len(),
{
    if before.len() == 0 {
        assert(before + rest == rest);
        assert(before + substituted(rest, beyond_ascii, environment) == substituted(
            rest,
            beyond_ascii,
            environment,
        ));
    } else {
        assert(before[0] != '$');
        assert((before + rest)[0] == before[0]);
        assert((before + rest).skip(1) == before.skip(1) + rest);
        assert(!before.skip(1).contains('$')) by {
            if before.skip(1).contains('$') {
                let i = choose|i: int| 0 <= i < before.skip(1).len() && before.skip(1)[i] == '$';
                assert(before[i + 1] == '$');
            }
        }
        law_text_before_a_dollar_sign_stays(before.skip(1), rest, beyond_ascii, environment);
        assert(before == seq![before[0]] + before.skip(1));
    }
}

/// `${NAME}` and `${NAME:default}` become the value of the variable where it is
/// set, else the default, else nothing, and what they become is taken as it is.
pub proof fn law_placeholders_are_filled_in(
    name: Seq<char>,
    default: Option<Seq<char>>,
    rest: Seq<char>,
    beyond_ascii: spec_fn(char) -> bool,
    environment: spec_fn(Seq<char>) -> Option<Seq<char>>,
)
    requires
        name.len() > 0,
        forall|i: int| 0 <= i < name.len() ==> is_word_char(#[trigger] name[i], beyond_ascii),
        default matches Some(d) ==> !d.contains('}'),
    ensures
        substituted(written(name, default) + rest, beyond_ascii, environment) == resolved(
            name,
            default,
            environment,
        ) + substituted(rest, beyond_ascii, environment),
{
    let content = written(name, default) + rest;
    let end: int = 2 + name.len() as int;
    match default {
        Some(d) => {
            let close = seq!['}'] + rest;
            assert(content.skip(2) == name + (seq![':'] + d + close));
            lemma_word_len(name, seq![':'] + d + close, beyond_ascii);
            assert(content.skip(end + 1) == d + close);
            lemma_brace_free_len(d, close);
            assert(content.subrange(end + 1, end + 1 + d.len()) == d);
            assert(content.skip(end + 1 + d.len() + 1) == rest);
        },
        None => {
            assert(content.skip(2) == name + (seq!['}'] + rest));
            lemma_word_len(name, seq!['}'] + rest, beyond_ascii);
            assert(content.skip(end + 1) == rest);
        },
    }
    assert(content.subrange(2, end) == name);
}

/// `${NAME}` and `${NAME:default}` become the value of the variable, as it is,
/// where the environment gives it one, else the default, as it is, else
/// nothing, and what follows is filled in for itself.
pub proof fn law_values_and_defaults_stand_as_they_are(
    name: Seq<char>,
    default: Option<Seq<char>>,
    rest: Seq<char>,
    beyond_ascii: spec_fn(char) -> bool,
    environment: spec_fn(Seq<char>) -> Option<Seq<char>>,
)
    requires
        name.len() > 0,
        forall|i: int|
            0 <= i < name.len() ==> 'a' <= #[trigger] name[i] <= 'z' || 'A' <= name[i] <= 'Z' || '0'
                <= name[i] <= '9' || name[i] == '_' || (name[i] >= '\u{80}' && beyond_ascii(
                name[i],
            )),
        default matches Some(d) ==> !d.contains('}'),
    ensures
        ({
            let content = match default {
                Some(d) => seq!['$', '{'] + name + seq![':'] + d + seq!['}'] + rest,
                None => seq!['$', '{'] + name + seq!['}'] + rest,
            };
            let filled = substituted(content, beyond_ascii, environment);
            let filled_rest = substituted(rest, beyond_ascii, environment);
            &&& environment(name) matches Some(value) ==> filled == value + filled_rest
            &&& environment(name) is None ==> {
                &&& default matches Some(d) ==> filled == d + filled_rest
                &&& default is None ==> filled == filled_rest
            }
            &&& asked_names(content, beyond_ascii) == seq![name] + asked_names(rest, beyond_ascii)
        }),
{
    let content = match default {
        Some(d) => seq!['$', '{'] + name + seq![':'] + d + seq!['}'] + rest,
        None => seq!['$', '{'] + name + seq!['}'] + rest,
    };
    let end: int = 2 + name.len() as int;
    match default {
        Some(d) => {
            let close = seq!['}'] + rest;
            assert(content.skip(2) == name + (seq![':'] + d + close));
            lemma_word_len(name, seq![':'] + d + close, beyond_ascii);
            assert(content.skip(end + 1) == d + close);
            lemma_brace_free_len(d, close);
            assert(content.subrange(end + 1, end + 1 + d.len()) == d);
            assert(content.skip(end + 1 + d.len() + 1) == rest);
        },
        None => {
            assert(content.skip(2) == name + (seq!['}'] + rest));
            lemma_word_len(name, seq!['}'] + rest, beyond_ascii);
            assert(content.skip(end + 1) == rest);
        },
    }
    assert(content.subrange(2, end) == name);
}

/// A dollar sign that opens no placeholder stays as it is: no brace after it,
/// no name after the brace, a name that neither a colon nor a closing brace
/// ends, or a default that no closing brace ends.
pub proof fn law_stray_dollar_signs_stay(
    name: Seq<char>,
    rest: Seq<char>,
    beyond_ascii: spec_fn(char) -> bool,
    environment: spec_fn(Seq<char>) -> Option<Seq<char>>,
)
    requires
        forall|i: int| 0 <= i < name.len() ==> is_word_char(#[trigger] name[i], beyond_ascii),
        rest.len() == 0 || !is_word_char(rest[0], beyond_ascii),
        name.len() == 0 || rest.len() == 0 || (rest[0] != '}' && (rest[0] != ':'
            || !rest.contains('}'))),
    ensures
        ({
            let content = seq!['$', '{'] + name + rest;
            substituted(content, beyond_ascii, environment) == seq!['$'] + substituted(
                content.skip(1),
                beyond_ascii,
                environment,
            )
        }),
        rest.len() == 0 || rest[0] != '{' ==> substituted(
            seq!['$'] + rest,
            beyond_ascii,
            environment,
        ) == seq!['$'] + substituted(rest, beyond_ascii, environment),
{
    let content = seq!['$', '{'] + name + rest;
    let end: int = 2 + name.len() as int;
    assert(content.skip(2) == name + rest);
    if rest.len() > 0 {
        lemma_word_len(name, rest, beyond_ascii);
        if rest[0] == ':' && name.len() > 0 {
            assert(content.skip(end + 1) == rest.skip(1));
            assert(!rest.skip(1).contains('}')) by {
                if rest.skip(1).contains('}') {
                    let i = choose|i: int| 0 <= i < rest.skip(1).len() && rest.skip(1)[i] == '}';
                    assert(rest[i + 1] == '}');
                }
            }
            lemma_no_brace(rest.skip(1));
        }
    } else {
        assert(name + rest == name);
        lemma_word_only(name, beyond_ascii);
    }
    assert(placeholder(content, beyond_ascii) is None);
    let dollar = seq!['$'] + rest;
    assert(dollar.skip(1) == rest);
    if rest.len() == 0 || rest[0] != '{' {
        assert(placeholder(dollar, beyond_ascii) is None);
    }
}

/// A text of word characters alone.
proof fn lemma_word_only(name: Seq<char>, beyond_ascii: spec_fn(char) -> bool)
    requires
        forall|i: int| 0 <= i < name.len() ==> is_word_char(#[trigger] name[i], beyond_ascii),
    ensures
        word_len(name, beyond_ascii) == name.len(),
    decreases name.len(),
{
    if name.len() > 0 {
        lemma_word_only(name.skip(1), beyond_ascii);
    }
}

/// A text without a closing brace.
proof fn lemma_no_brace(text: Seq<char>)
    requires
        !text.contains('}'),
    ensures
        brace_free_len(text) == text.len(),
    decreases text.len(),
{
    if text.len() > 0 {
        assert(text[0] != '}');
        assert(!text.skip(1).contains('}')) by {
            if text.skip(1).contains('}') {
                let i = choose|i: int| 0 <= i < text.skip(1).len() && text.skip(1)[i] == '}';
                assert(text[i + 1] == '}');
            }
        }
        lemma_no_brace(text.skip(1));
    }
}

/// The first answer for a name is the value of the variable, and a variable
/// without an answer has none.
pub proof fn law_the_first_answer_counts(vars: Seq<EnvVar>, name: Seq<char>, i: int)
    requires
        0 <= i <= vars.len(),
        forall|j: int| 0 <= j < i ==> (#[trigger] vars[j]).name@ != name,
        i < vars.len() ==> vars[i].name@ == name,
    ensures
        i < vars.len() ==> answers(vars)(name) == Some(vars[i].value@),
        i == vars.len() ==> answers(vars)(name) is None,
    decreases i,
{
    if i > 0 {
        assert(vars[0].name@ != name);
        assert forall|j: int| 0 <= j < i - 1 implies (#[trigger] vars.skip(1)[j]).name@
            != name by {
            assert(vars.skip(1)[j] == vars[j + 1]);
        }
        law_the_first_answer_counts(vars.skip(1), name, i - 1);
    }
}

/// The file of the run mode has the mode, as it is set, between
/// `config/application-` and `.yml`, and `local` where none is set.
pub proof fn law_the_run_mode_names_its_file(run_mode: Seq<char>)
    ensures
        mode_path(Some(run_mode)) == "config/application-"@ + run_mode + ".yml"@,
        mode_path(None) == mode_path(Some("local"@)),
{
}

/// Only what the environment says of the variables that a text asks for
/// matters: answers for those fill the text in as the environment would.
pub proof fn law_only_asked_variables_matter(
    content: Seq<char>,
    beyond_ascii: spec_fn(char) -> bool,
    vars: Seq<EnvVar>,
    environment: spec_fn(Seq<char>) -> Option<Seq<char>>,
)
    requires
        forall|i: int|
            0 <= i < asked_names(content, beyond_ascii).len() ==> variable(
                vars,
                #[trigger] asked_names(content, beyond_ascii)[i],
            ) == environment(asked_names(content, beyond_ascii)[i]),
    ensures
        substituted(content, beyond_ascii, answers(vars)) == substituted(
            content,
            beyond_ascii,
            environment,
        ),
    decreases content.len(),
{
    if content.len() > 0 {
        match placeholder(content, beyond_ascii) {
            Some(found) => {
                let names = asked_names(content, beyond_ascii);
                let rest = asked_names(content.skip(found.len), beyond_ascii);
                assert(names[0] == found.name);
                assert forall|i: int| 0 <= i < rest.len() implies variable(vars, #[trigger] rest[i])
                    == environment(rest[i]) by {
                    assert(names[i + 1] == rest[i]);
                }
                law_only_asked_variables_matter(
                    content.skip(found.len),
                    beyond_ascii,
                    vars,
                    environment,
                );
            },
            None => {
                assert(asked_names(content, beyond_ascii) == asked_names(
                    content.skip(1),
                    beyond_ascii,
                ));
                law_only_asked_variables_matter(content.skip(1), beyond_ascii, vars, environment);
            },
        }
    }
}

} // verus!
