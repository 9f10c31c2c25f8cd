//! The parameters of a FastCGI request, and how they follow from the
//! environment, the URL and the options.
//!
//! The parameters are kept in the `Params` of the client library that sends
//! them. What that type holds is spoken of as a map from names to values.

use crate::cli::Cli;
use crate::text::{concat, extended, pair_views, str_eq, strip_prefix};
use fastcgi_client::Params;
use std::borrow::Cow;
use vstd::prelude::*;
use vstd::utf8::encode_utf8;

verus! {

/// `fastcgi_client::Params`, the parameter set that the client library
/// sends. Nothing is known of its inside: what it holds is named by
/// `entries`.
#[verifier::external_type_specification]
#[verifier::external_body]
pub struct ExParams<'a>(Params<'a>);

/// The parameters that a parameter set holds, by name.
pub uninterp spec fn entries(params: Params<'static>) -> Map<Seq<char>, Seq<char>>;

/// The parameters that the client library sets by itself.
pub open spec fn default_entries() -> Map<Seq<char>, Seq<char>> {
    Map::empty().insert("GATEWAY_INTERFACE"@, "FastCGI/1.0"@).insert(
        "SERVER_SOFTWARE"@,
        "fastcgi-client-rs"@,
    ).insert("SERVER_PROTOCOL"@, "HTTP/1.1"@)
}

/// The character of a decimal digit.
pub open spec fn digit_char(digit: nat) -> char {
    ((0x30 + digit) as u8) as char
}

/// A number in decimal, without a sign and without leading zeros.
pub open spec fn decimal(n: nat) -> Seq<char>
    decreases n,
{
    if n < 10 {
        seq![digit_char(n)]
    } else {
        decimal(n / 10).push(digit_char(n % 10))
    }
}

/// The value of a parameter, or the empty text where it is not set.
pub open spec fn value_or_empty(map: Map<Seq<char>, Seq<char>>, name: Seq<char>) -> Seq<char> {
    if map.contains_key(name) {
        map[name]
    } else {
        Seq::empty()
    }
}

/// The script name that a request is made for: the one that the options
/// give, else the one that is set already, else none.
pub open spec fn resolved_script_name(base: Map<Seq<char>, Seq<char>>, cli: Cli) -> Seq<char> {
    match cli.script_name {
        Some(name) => name@,
        None => value_or_empty(base, "SCRIPT_NAME"@),
    }
}

/// The part of a URL path that follows the script name; the whole path
/// where it does not begin with the script name.
pub open spec fn path_info(path: Seq<char>, script: Seq<char>) -> Seq<char> {
    if script.is_prefix_of(path) {
        path.skip(script.len() as int)
    } else {
        path
    }
}

/// The parameters after the method and the script are set: `REQUEST_METHOD`
/// always, `SCRIPT_NAME` where the options give one, and `SCRIPT_FILENAME`
/// where a script name is known and a document root is given.
pub open spec fn with_script(base: Map<Seq<char>, Seq<char>>, cli: Cli) -> Map<
    Seq<char>,
    Seq<char>,
> {
    let script = resolved_script_name(base, cli);
    let with_method = base.insert("REQUEST_METHOD"@, cli.request_method@);
    let with_name = match cli.script_name {
        Some(name) => with_method.insert("SCRIPT_NAME"@, name@),
        None => with_method,
    };
    match cli.server_document_root {
        Some(root) => if script.len() > 0 {
            with_name.insert("SCRIPT_FILENAME"@, root@ + script)
        } else {
            with_name
        },
        None => with_name,
    }
}

/// The parameters after those that follow from the URL are set, where a URL
/// is given: `PATH_INFO` unless it would be empty, and then
/// `PATH_TRANSLATED` where a document root is given; `HTTP_HOST` where the
/// host is a domain; `QUERY_STRING` where there is a query; `REQUEST_URI`
/// always; and `HTTPS` where the scheme is `https`.
///
/// `REQUEST_URI` is the path of the URL as it stands, with the query after a
/// question mark where there is one. Unlike `PATH_INFO` it keeps the script
/// name that the path begins with: for the path `/app/show`, the script
/// `/app` and the query `id=5` it is `/app/show?id=5`.
pub open spec fn with_url(map: Map<Seq<char>, Seq<char>>, cli: Cli, script: Seq<char>) -> Map<
    Seq<char>,
    Seq<char>,
> {
    match cli.url {
        None => map,
        Some(url) => {
            let info = path_info(url.path@, script);
            let translated = match cli.server_document_root {
                Some(root) => if info.len() > 0 {
                    map.insert("PATH_TRANSLATED"@, root@ + info)
                } else {
                    map
                },
                None => map,
            };
            let with_info = if info.len() > 0 {
                translated.insert("PATH_INFO"@, info)
            } else {
                translated
            };
            let with_host = match url.domain {
                Some(domain) => with_info.insert("HTTP_HOST"@, domain@),
                None => with_info,
            };
            let with_uri = match url.query {
                Some(query) => with_host.insert("QUERY_STRING"@, query@).insert(
                    "REQUEST_URI"@,
                    url.path@ + "?"@ + query@,
                ),
                None => with_host.insert("REQUEST_URI"@, url.path@),
            };
            if url.scheme@ == "https"@ {
                with_uri.insert("HTTPS"@, "on"@)
            } else {
                with_uri
            }
        },
    }
}

/// The parameters after the length of the body is set: `CONTENT_LENGTH` is
/// the number of bytes of the body that the options give, unless it is set
/// already or no body is given.
pub open spec fn with_body(map: Map<Seq<char>, Seq<char>>, cli: Cli) -> Map<Seq<char>, Seq<char>> {
    match cli.data {
        Some(data) => if map.contains_key("CONTENT_LENGTH"@) {
            map
        } else {
            map.insert("CONTENT_LENGTH"@, decimal(encode_utf8(data@).len()))
        },
        None => map,
    }
}

/// The parameters of the request that the options ask for, given those that
/// are set already.
pub open spec fn derived(base: Map<Seq<char>, Seq<char>>, cli: Cli) -> Map<Seq<char>, Seq<char>> {
    with_body(with_url(with_script(base, cli), cli, resolved_script_name(base, cli)), cli)
}

/// A parameter set with the defaults of the client library.
///
/// Trusted: `Params::default` gives the three entries of `default_entries`
/// and no other.
#[verifier::external_body]
fn default_params() -> (params: Params<'static>)
    ensures
        entries(params) == default_entries(),
{
    Params::default()
}

/// Sets one parameter.
///
/// Trusted: `insert` of the hash map that `Params` dereferences to sets the
/// value of `name` and leaves every other entry as it was.
#[verifier::external_body]
fn insert(params: &mut Params<'static>, name: String, value: String)
    ensures
        entries(*final(params)) == entries(*old(params)).insert(name@, value@),
{
    params.insert(name.into(), value.into());
}

/// The value of one parameter, if it is set.
///
/// Trusted: `get` of the hash map that `Params` dereferences to finds the
/// value of `name` exactly if the set holds one.
#[verifier::external_body]
fn get(params: &Params<'static>, name: &str) -> (value: Option<String>)
    ensures
        match value {
            Some(v) => entries(*params).contains_key(name@) && entries(*params)[name@] == v@,
            None => !entries(*params).contains_key(name@),
        },
{
    params.get(name).cloned().map(Cow::into_owned)
}

/// Sets `REQUEST_METHOD`.
///
/// Trusted: `Params::request_method` sets that one parameter.
#[verifier::external_body]
fn request_method(params: Params<'static>, value: String) -> (set: Params<'static>)
    ensures
        entries(set) == entries(params).insert("REQUEST_METHOD"@, value@),
{
    params.request_method(value)
}

/// Sets `SCRIPT_NAME`.
///
/// Trusted: `Params::script_name` sets that one parameter.
#[verifier::external_body]
fn script_name(params: Params<'static>, value: String) -> (set: Params<'static>)
    ensures
        entries(set) == entries(params).insert("SCRIPT_NAME"@, value@),
{
    params.script_name(value)
}

/// Sets `SCRIPT_FILENAME`.
///
/// Trusted: `Params::script_filename` sets that one parameter.
#[verifier::external_body]
fn script_filename(params: Params<'static>, value: String) -> (set: Params<'static>)
    ensures
        entries(set) == entries(params).insert("SCRIPT_FILENAME"@, value@),
{
    params.script_filename(value)
}

/// Sets `QUERY_STRING`.
///
/// Trusted: `Params::query_string` sets that one parameter.
#[verifier::external_body]
fn query_string(params: Params<'static>, value: String) -> (set: Params<'static>)
    ensures
        entries(set) == entries(params).insert("QUERY_STRING"@, value@),
{
    params.query_string(value)
}

/// Sets `REQUEST_URI`.
///
/// Trusted: `Params::request_uri` sets that one parameter.
#[verifier::external_body]
fn request_uri(params: Params<'static>, value: String) -> (set: Params<'static>)
    ensures
        entries(set) == entries(params).insert("REQUEST_URI"@, value@),
{
    params.request_uri(value)
}

/// Sets `CONTENT_LENGTH`.
///
/// Trusted: `Params::content_length` sets that one parameter to the number
/// as `usize::to_string` writes it, in decimal.
#[verifier::external_body]
fn content_length(params: Params<'static>, length: usize) -> (set: Params<'static>)
    ensures
        entries(set) == entries(params).insert("CONTENT_LENGTH"@, decimal(length as nat)),
{
    params.content_length(length)
}

/// Sets the given variables as parameters, one after another, so that of
/// two with one name the later stays.
pub fn set_from_env(params: Params<'static>, vars: Vec<(String, String)>) -> (set: Params<
    'static,
>)
    ensures
        entries(set) == extended(entries(params), pair_views(vars@)),
{
    let mut set = params;
    let mut i: usize = 0;
    while i < vars.len()
        invariant
            i <= vars.len(),
            entries(set) == extended(entries(params), pair_views(vars@.take(i as int))),
        decreases vars.len() - i,
    {
        let name = vars[i].0.clone();
        let value = vars[i].1.clone();
        insert(&mut set, name, value);
        i += 1;
        assert(pair_views(vars@.take(i as int)).drop_last() =~= pair_views(
            vars@.take(i - 1),
        ));
    }
    assert(vars@.take(i as int) =~= vars@);
    set
}

/// Sets the parameters that follow from the options: the method, the
/// script, what the URL gives, and the length of the body.
///
/// A script name that is set already is used where the options give none,
/// and a `CONTENT_LENGTH` that is set already stays.
pub fn set_from_cli(params: Params<'static>, cli: &Cli) -> (set: Params<'static>)
    ensures
        entries(set) == derived(entries(params), *cli),
{
    let ghost base = entries(params);
    let mut set = request_method(params, cli.request_method.clone());
    let script: String = match &cli.script_name {
        Some(name) => {
            set = script_name(set, name.clone());
            name.clone()
        },
        None => {
            proof {
                reveal_strlit("REQUEST_METHOD");
                reveal_strlit("SCRIPT_NAME");
                assert("REQUEST_METHOD"@.len() != "SCRIPT_NAME"@.len());
            }
            match get(&set, "SCRIPT_NAME") {
                Some(name) => name,
                None => String::new(),
            }
        },
    };
    assert(script@ == resolved_script_name(base, *cli));
    if !script.as_str().is_empty() {
        if let Some(root) = &cli.server_document_root {
            set = script_filename(set, concat(root.as_str(), script.as_str()));
        }
    }
    assert(entries(set) == with_script(base, *cli));
    if let Some(url) = &cli.url {
        let info: String = match strip_prefix(url.path.as_str(), script.as_str()) {
            Some(rest) => rest,
            None => url.path.clone(),
        };
        if !info.as_str().is_empty() {
            if let Some(root) = &cli.server_document_root {
                insert(
                    &mut set,
                    "PATH_TRANSLATED".to_owned(),
                    concat(root.as_str(), info.as_str()),
                );
            }
            insert(&mut set, "PATH_INFO".to_owned(), info);
        }
        if let Some(domain) = &url.domain {
            insert(&mut set, "HTTP_HOST".to_owned(), domain.clone());
        }
        match &url.query {
            Some(query) => {
                set = query_string(set, query.clone());
                let uri = concat(concat(url.path.as_str(), "?").as_str(), query.as_str());
                set = request_uri(set, uri);
            },
            None => {
                set = request_uri(set, url.path.clone());
            },
        }
        if str_eq(url.scheme.as_str(), "https") {
            insert(&mut set, "HTTPS".to_owned(), "on".to_owned());
        }
    }
    assert(entries(set) == with_url(with_script(base, *cli), *cli, script@));
    if let Some(data) = &cli.data {
        if get(&set, "CONTENT_LENGTH").is_none() {
            set = content_length(set, data.as_str().as_bytes().len());
        }
    }
    set
}

/// The parameters of the request: the defaults of the client library, then
/// the environment variables that the options let pass, then what follows
/// from the options.
pub fn request_params(cli: &Cli, env: Vec<(String, String)>) -> (params: Params<'static>)
    ensures
        entries(params) == derived(
            extended(
                default_entries(),
                pair_views(env@.filter(|var: (String, String)| cli.whitelists(var.0@))),
            ),
            *cli,
        ),
{
    let passed = cli.whitelisted_env(env);
    set_from_cli(set_from_env(default_params(), passed), cli)
}

} // verus!
