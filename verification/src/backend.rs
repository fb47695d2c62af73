//! URIs as the `http` crate reads them, with the parts that the gateway uses
//! held as plain text.

use http::uri::{InvalidUri, PathAndQuery};
use std::str::FromStr;
use vstd::prelude::*;
use vstd::string::*;
use vstd::utf8::*;

verus! {

/// `http::uri::InvalidUri`, the error of a URI that does not parse.
#[verifier::external_type_specification]
#[verifier::external_body]
pub struct ExInvalidUri(http::uri::InvalidUri);

/// The parts of a backend URI.
#[derive(Debug, PartialEq, Eq)]
pub struct BackendUri {
    pub scheme: Option<String>,
    pub authority: Option<String>,
    pub host: Option<String>,
    pub port: Option<u16>,
}

/// The parts of a backend URI, as contracts speak of them.
pub struct UriParts {
    pub scheme: Option<Seq<char>>,
    pub authority: Option<Seq<char>>,
    pub host: Option<Seq<char>>,
    pub port: Option<u16>,
}

/// The characters of an optional string.
pub open spec fn option_text(text: Option<String>) -> Option<Seq<char>> {
    match text {
        Some(t) => Some(t@),
        None => None,
    }
}

impl View for BackendUri {
    type V = UriParts;

    open spec fn view(&self) -> UriParts {
        UriParts {
            scheme: option_text(self.scheme),
            authority: option_text(self.authority),
            host: option_text(self.host),
            port: self.port,
        }
    }
}

/// What `http::Uri` makes of a text: the scheme, authority, host and port of
/// the URI, or nothing where the text is no URI.
pub uninterp spec fn http_uri(text: Seq<char>) -> Option<UriParts>;

/// Text of visible ASCII characters other than the space.
pub open spec fn is_graphic(text: Seq<char>) -> bool {
    forall|i: int| 0 <= i < text.len() ==> '!' <= #[trigger] text[i] <= '~'
}

/// The part of `text` before the first `mark`, or all of it.
pub open spec fn before(text: Seq<char>, mark: char) -> Seq<char>
    decreases text.len(),
{
    if text.len() == 0 || text[0] == mark {
        Seq::empty()
    } else {
        seq![text[0]] + before(text.skip(1), mark)
    }
}

/// The part of `text` after the last `mark`, or all of it.
pub open spec fn after_last(text: Seq<char>, mark: char) -> Seq<char>
    decreases text.len(),
{
    if text.len() == 0 || text.last() == mark {
        Seq::empty()
    } else {
        after_last(text.drop_last(), mark).push(text.last())
    }
}

/// The number that decimal digits write.
pub open spec fn decimal(digits: Seq<char>) -> nat
    decreases digits.len(),
{
    if digits.len() == 0 {
        0
    } else {
        10 * decimal(digits.drop_last()) + (digits.last() as nat - '0' as nat) as nat
    }
}

/// The port that a text writes: decimal digits, after a plus sign or not, for
/// a number of 65535 at most.
pub open spec fn port_number(text: Seq<char>) -> Option<u16> {
    let digits = if text.len() > 0 && text[0] == '+' {
        text.skip(1)
    } else {
        text
    };
    if digits.len() > 0 && (forall|i: int|
        0 <= i < digits.len() ==> '0' <= #[trigger] digits[i] <= '9') && decimal(digits) <= 65535 {
        Some(decimal(digits) as u16)
    } else {
        None
    }
}

/// The host of an authority: what follows the user information, an IP literal
/// with its brackets, any other host up to the colon.
pub open spec fn authority_host(authority: Seq<char>) -> Seq<char> {
    let host_and_port = after_last(authority, '@');
    if host_and_port.len() > 0 && host_and_port[0] == '[' {
        before(host_and_port, ']').push(']')
    } else {
        before(host_and_port, ':')
    }
}

/// The port of an authority: what follows its last colon, where that is one.
pub open spec fn authority_port(authority: Seq<char>) -> Option<u16> {
    if authority.contains(':') {
        port_number(after_last(authority, ':'))
    } else {
        None
    }
}

impl UriParts {
    /// What holds of the parts of every URI: a scheme comes with an authority,
    /// the authority is graphic, and the host and the port are those of the
    /// authority.
    pub open spec fn is_consistent(self) -> bool {
        match self.authority {
            Some(authority) => {
                &&& is_graphic(authority)
                &&& self.host == Some(authority_host(authority))
                &&& self.port == authority_port(authority)
            },
            None => self.scheme is None && self.host is None && self.port is None,
        }
    }
}

/// Calls `http::Uri`'s `from_str` and keeps the scheme, authority, host and
/// port of the URI. Which texts are URIs and what their scheme and authority
/// are is left to the name `http_uri`. What is stated is that a scheme comes
/// with an authority, that an authority holds graphic characters only, and
/// what host and port an authority has.
#[verifier::external_body]
pub(crate) fn parse_http_uri(text: &str) -> (r: Result<BackendUri, InvalidUri>)
    ensures
        match r {
            Ok(uri) => http_uri(text@) == Some(uri@) && uri@.is_consistent(),
            Err(_) => http_uri(text@) is None,
        },
{
    let uri = http::Uri::from_str(text)?;
    Ok(
        BackendUri {
            scheme: uri.scheme_str().map(|scheme| scheme.to_string()),
            authority: uri.authority().map(|authority| authority.as_str().to_string()),
            host: uri.host().map(|host| host.to_string()),
            port: uri.port_u16(),
        },
    )
}

/// A character that the path of a URI may hold as it is.
pub open spec fn is_path_char(c: char) -> bool {
    ||| c == '!' || c == '=' || c == '|' || c == '~'
    ||| c == '"' || c == '{' || c == '}'
    ||| '$' <= c <= ';'
    ||| '@' <= c <= '_'
    ||| 'a' <= c <= 'z'
    ||| c >= '\u{80}'
}

/// A character that the query of a URI may hold as it is.
pub open spec fn is_query_char(c: char) -> bool {
    ||| c == '!' || c == '='
    ||| '$' <= c <= ';'
    ||| '?' <= c <= '~'
    ||| c >= '\u{80}'
}

/// Whether `text` is a path with an optional query and fragment: 65534 bytes
/// at most, a slash, a query or a fragment at the start, and only characters
/// that may stand there up to the fragment.
pub open spec fn is_path_and_query(text: Seq<char>) -> bool {
    let target = before(text, '#');
    let path = before(target, '?');
    &&& 0 < encode_utf8(text).len() <= 65534
    &&& text == seq!['*'] || {
        &&& text[0] == '/' || text[0] == '?' || text[0] == '#'
        &&& forall|i: int| 0 <= i < path.len() ==> is_path_char(#[trigger] path[i])
        &&& forall|i: int|
            path.len() <= i < target.len() ==> is_query_char(#[trigger] target[i])
    }
}

/// `text` without its fragment, `/` standing for nothing.
pub open spec fn path_and_query(text: Seq<char>) -> Seq<char> {
    let target = before(text, '#');
    if target.len() == 0 {
        seq!['/']
    } else {
        target
    }
}

/// Calls `PathAndQuery::from_str` and `PathAndQuery::as_str`: a path and query
/// without the fragment, or an error where the text is none.
#[verifier::external_body]
pub(crate) fn parse_path_and_query(text: &str) -> (r: Result<String, InvalidUri>)
    ensures
        match r {
            Ok(target) => is_path_and_query(text@) && target@ == path_and_query(text@),
            Err(_) => !is_path_and_query(text@),
        },
{
    PathAndQuery::from_str(text).map(|target| target.as_str().to_string())
}

/// A copy of an optional string.
pub fn copy_option(text: &Option<String>) -> (r: Option<String>)
    ensures
        r == *text,
{
    match text {
        Some(t) => Some(t.clone()),
        None => None,
    }
}

impl BackendUri {
    /// A copy of the URI.
    pub fn copy(&self) -> (r: BackendUri)
        ensures
            r == *self,
    {
        BackendUri {
            scheme: copy_option(&self.scheme),
            authority: copy_option(&self.authority),
            host: copy_option(&self.host),
            port: self.port,
        }
    }
}

/// A text without `mark` has all of itself before it.
proof fn lemma_before_missing_mark(text: Seq<char>, mark: char)
    requires
        !text.contains(mark),
    ensures
        before(text, mark) == text,
    decreases text.len(),
{
    if text.len() > 0 {
        assert(text[0] != mark);
        assert(!text.skip(1).contains(mark)) by {
            if text.skip(1).contains(mark) {
                let i = choose|i: int| 0 <= i < text.skip(1).len() && text.skip(1)[i] == mark;
                assert(text[i + 1] == mark);
            }
        }
        lemma_before_missing_mark(text.skip(1), mark);
        assert(text == seq![text[0]] + text.skip(1));
    }
}

/// A path and query without a fragment stays as it is.
pub proof fn law_target_without_fragment_stays(text: Seq<char>)
    requires
        text.len() > 0,
        !text.contains('#'),
    ensures
        path_and_query(text) == text,
{
    lemma_before_missing_mark(text, '#');
}

/// What is before the first of two marks is all that counts.
proof fn lemma_before_first_mark(text: Seq<char>, mark: char, more: Seq<char>)
    requires
        !text.contains(mark),
    ensures
        before(text + seq![mark] + more, mark) == text,
    decreases text.len(),
{
    let whole = text + seq![mark] + more;
    if text.len() == 0 {
        assert(whole[0] == mark);
    } else {
        assert(text[0] != mark);
        assert(whole[0] == text[0]);
        assert(whole.skip(1) == text.skip(1) + seq![mark] + more);
        assert(!text.skip(1).contains(mark)) by {
            if text.skip(1).contains(mark) {
                let i = choose|i: int| 0 <= i < text.skip(1).len() && text.skip(1)[i] == mark;
                assert(text[i + 1] == mark);
            }
        }
        lemma_before_first_mark(text.skip(1), mark, more);
        assert(text == seq![text[0]] + text.skip(1));
    }
}

/// A fragment makes no difference to the target.
pub proof fn law_fragments_are_no_part_of_the_target(text: Seq<char>, fragment: Seq<char>)
    requires
        !text.contains('#'),
    ensures
        path_and_query(text + seq!['#'] + fragment) == path_and_query(text),
{
    lemma_before_first_mark(text, '#', fragment);
    lemma_before_missing_mark(text, '#');
}

/// What is before a mark is a part of the text, at its start.
proof fn lemma_before_is_prefix(text: Seq<char>, mark: char)
    ensures
        before(text, mark).is_prefix_of(text),
    decreases text.len(),
{
    if text.len() > 0 && text[0] != mark {
        lemma_before_is_prefix(text.skip(1), mark);
        let rest = before(text.skip(1), mark);
        assert forall|i: int| 0 <= i < before(text, mark).len() implies before(text, mark)[i]
            == text[i] by {
            if i > 0 {
                assert(rest[i - 1] == text.skip(1)[i - 1]);
            }
        }
    }
}

/// A text of at most 65534 bytes is a path and query where it starts with a
/// slash and holds nothing but letters and digits of ASCII, percent signs,
/// slashes, question marks and the other characters that URIs use as they are.
pub proof fn law_ordinary_targets_are_accepted(text: Seq<char>)
    requires
        text.len() > 0,
        text[0] == '/',
        0 < encode_utf8(text).len() <= 65534,
        forall|i: int|
            0 <= i < text.len() ==> 'a' <= #[trigger] text[i] <= 'z' || 'A' <= text[i] <= 'Z' || '0'
                <= text[i] <= '9' || text[i] == '-' || text[i] == '.' || text[i] == '_' || text[i]
                == '~' || text[i] == '!' || text[i] == '$' || text[i] == '&' || text[i] == '\''
                || text[i] == '(' || text[i] == ')' || text[i] == '*' || text[i] == '+' || text[i]
                == ',' || text[i] == ';' || text[i] == '=' || text[i] == ':' || text[i] == '@'
                || text[i] == '%' || text[i] == '/' || text[i] == '?',
    ensures
        is_path_and_query(text),
        path_and_query(text) == text,
{
    lemma_before_missing_mark(text, '#');
    let path = before(text, '?');
    lemma_before_is_prefix(text, '?');
    lemma_before_has_no_mark(text, '?');
    assert forall|i: int| 0 <= i < path.len() implies is_path_char(#[trigger] path[i]) by {
        assert(path[i] == text[i]);
        assert(path.contains(path[i]));
    }
}

/// What contracts say of a backend URI is what it holds.
pub proof fn law_uris_are_shown_whole(uri: BackendUri)
    ensures
        uri@.scheme is Some <==> uri.scheme is Some,
        uri.scheme matches Some(scheme) ==> uri@.scheme == Some(scheme@),
        uri@.authority is Some <==> uri.authority is Some,
        uri.authority matches Some(authority) ==> uri@.authority == Some(authority@),
        uri@.host is Some <==> uri.host is Some,
        uri.host matches Some(host) ==> uri@.host == Some(host@),
        uri@.port == uri.port,
{
}

/// What is before a mark holds no such mark.
proof fn lemma_before_has_no_mark(text: Seq<char>, mark: char)
    ensures
        !before(text, mark).contains(mark),
    decreases text.len(),
{
    if text.len() > 0 && text[0] != mark {
        lemma_before_has_no_mark(text.skip(1), mark);
        let rest = before(text.skip(1), mark);
        if before(text, mark).contains(mark) {
            let i = choose|i: int|
                0 <= i < before(text, mark).len() && before(text, mark)[i] == mark;
            assert(rest[i - 1] == mark);
        }
    }
}

/// A fragment never reaches the backend.
pub proof fn law_target_has_no_fragment(text: Seq<char>)
    ensures
        !path_and_query(text).contains('#'),
{
    lemma_before_has_no_mark(text, '#');
}

/// What is before a mark in graphic text is graphic.
proof fn lemma_before_is_graphic(text: Seq<char>, mark: char)
    requires
        is_graphic(text),
    ensures
        is_graphic(before(text, mark)),
    decreases text.len(),
{
    if text.len() > 0 && text[0] != mark {
        assert forall|i: int| 0 <= i < text.skip(1).len() implies '!' <= #[trigger] text.skip(1)[i]
            <= '~' by {
            assert(text.skip(1)[i] == text[i + 1]);
        }
        lemma_before_is_graphic(text.skip(1), mark);
    }
}

/// What is after the last mark in graphic text is graphic.
proof fn lemma_after_last_is_graphic(text: Seq<char>, mark: char)
    requires
        is_graphic(text),
    ensures
        is_graphic(after_last(text, mark)),
    decreases text.len(),
{
    if text.len() > 0 && text.last() != mark {
        assert(text.last() == text[text.len() - 1]);
        lemma_after_last_is_graphic(text.drop_last(), mark);
    }
}

/// The authority and the host of every URI can be the value of a header line,
/// and a URI with a scheme has both.
pub proof fn law_backends_can_be_named(uri: UriParts)
    requires
        uri.is_consistent(),
    ensures
        uri.authority matches Some(authority) ==> crate::headers::is_header_text(authority),
        uri.host matches Some(host) ==> crate::headers::is_header_text(host),
        uri.scheme is Some ==> uri.authority is Some && uri.host is Some,
{
    if let Some(authority) = uri.authority {
        lemma_after_last_is_graphic(authority, '@');
        lemma_before_is_graphic(after_last(authority, '@'), ']');
        lemma_before_is_graphic(after_last(authority, '@'), ':');
    }
}

/// A host that is an IP literal keeps its brackets.
pub proof fn law_ip_literals_keep_their_brackets(authority: Seq<char>)
    requires
        after_last(authority, '@').len() > 0,
        after_last(authority, '@')[0] == '[',
    ensures
        authority_host(authority).len() > 1,
        authority_host(authority)[0] == '[',
        authority_host(authority).last() == ']',
{
    assert(before(after_last(authority, '@'), ']')[0] == '[');
}

/// URIs with one authority have one host and one port, whatever their scheme,
/// path and query.
pub proof fn law_host_and_port_follow_the_authority(a: UriParts, b: UriParts)
    requires
        a.is_consistent(),
        b.is_consistent(),
        a.authority == b.authority,
    ensures
        a.host == b.host,
        a.port == b.port,
{
}

} // verus!
