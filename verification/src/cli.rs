//! What the command line asks for, and the decisions that follow from it
//! alone.

use crate::failure::Failure;
use crate::text::{chars_of, concat, contains_char, starts_with, str_eq, string_of};
use vstd::prelude::*;

verus! {

/// The parts of the target URL that a request is made from.
#[derive(Debug)]
pub struct RequestUrl {
    /// The scheme, in lower case and without the colon.
    pub scheme: String,
    /// The host, where the URL has one and it is a domain name rather than an
    /// IP address.
    pub domain: Option<String>,
    /// The path. It begins with `/` unless the URL cannot be a base.
    pub path: String,
    /// The query, without the question mark, where the URL has one.
    pub query: Option<String>,
}

/// The options of one invocation.
#[derive(Debug)]
pub struct Cli {
    /// Address of the FastCGI server: `HOST:PORT`, or the path of a Unix
    /// socket.
    pub address: String,
    /// The URL to be accessed.
    pub url: Option<RequestUrl>,
    /// The request body, where it is given on the command line.
    pub data: Option<String>,
    /// The document root at the server, without a trailing slash.
    pub server_document_root: Option<String>,
    /// The value for `SCRIPT_NAME`.
    pub script_name: Option<String>,
    /// Environment variables to pass on in any case.
    pub env_vars: Vec<String>,
    /// Pass on only the variables named in `env_vars`.
    pub env_clear: bool,
    /// Pass on every environment variable.
    pub env_full: bool,
    /// File to write the response headers to.
    pub response_headers_dump_file: Option<String>,
    /// Keep the response headers in the output.
    pub response_headers_include: bool,
    /// Fail, and write no body, on a status above 400.
    pub response_status_fail_on_gte_400: bool,
    /// Directory that output files are relative to.
    pub output_directory: Option<String>,
    /// File to write the output to.
    pub output_file_name: Option<String>,
    /// Name the output file after the last segment of the URL's path.
    pub output_file_remote_name: bool,
    /// File to write the server's error stream to.
    pub stderr_file_name: Option<String>,
    /// The request method.
    pub request_method: String,
}

/// Where the body of the request comes from.
#[derive(Clone, Copy, Debug, PartialEq, Eq, Structural)]
pub enum BodySource {
    /// The string given on the command line.
    Literal,
    /// Standard input.
    StandardInput,
    /// Nowhere: the request has no body.
    Empty,
}

/// The kind of socket that the server listens on.
#[derive(Clone, Copy, Debug, PartialEq, Eq, Structural)]
pub enum Transport {
    /// A TCP socket, named as `HOST:PORT`.
    Tcp,
    /// A Unix domain socket, named by its path.
    Unix,
}

/// Whether `name` is one of the meta-variables that CGI defines for a
/// request.
pub open spec fn is_cgi_meta_variable(name: Seq<char>) -> bool {
    name == "AUTH_TYPE"@ || name == "CONTENT_LENGTH"@ || name == "CONTENT_TYPE"@ || name
        == "GATEWAY_INTERFACE"@ || name == "PATH_INFO"@ || name == "PATH_TRANSLATED"@ || name
        == "QUERY_STRING"@ || name == "REMOTE_ADDR"@ || name == "REMOTE_HOST"@ || name
        == "REMOTE_IDENT"@ || name == "REMOTE_USER"@ || name == "REQUEST_METHOD"@ || name
        == "SCRIPT_NAME"@ || name == "SERVER_NAME"@ || name == "SERVER_PORT"@ || name
        == "SERVER_PROTOCOL"@ || name == "SERVER_SOFTWARE"@
}

/// Where the trailing slashes of `path` begin: the position after the last
/// character that is no slash, or 0.
pub open spec fn trimmed_len(path: Seq<char>) -> int
    decreases path.len(),
{
    if path.len() > 0 && path.last() == '/' {
        trimmed_len(path.drop_last())
    } else {
        path.len() as int
    }
}

/// Where the run of characters other than slashes that ends at `end` begins.
pub open spec fn segment_start(path: Seq<char>, end: int) -> int
    decreases end,
{
    if 0 < end <= path.len() && path[end - 1] != '/' {
        segment_start(path, end - 1)
    } else {
        end
    }
}

/// The path of a file that is named relative to a directory. A path that
/// begins with a slash is absolute and stays as it is. Any other lies in the
/// directory: it follows the directory, after a slash where the directory
/// is not empty and does not end with one.
pub open spec fn joined_path(directory: Seq<char>, path: Seq<char>) -> Seq<char> {
    if path.len() > 0 && path[0] == '/' {
        path
    } else if directory.len() == 0 || directory.last() == '/' {
        directory + path
    } else {
        directory + seq!['/'] + path
    }
}

/// The last segment of `path` that is not empty, where `path` begins with a
/// slash and has such a segment. Segments are what the slashes separate.
pub open spec fn last_segment(path: Seq<char>) -> Option<Seq<char>> {
    let end = trimmed_len(path);
    if path.len() > 0 && path[0] == '/' && end > 0 {
        Some(path.subrange(segment_start(path, end), end))
    } else {
        None
    }
}

/// The segment that names the output file is not empty, holds no slash,
/// stands after a slash, and only slashes follow it. A path gives none
/// exactly if it does not begin with a slash or holds nothing but slashes.
pub proof fn law_last_segment(path: Seq<char>)
    ensures
        last_segment(path) matches Some(name) ==> {
            let end = trimmed_len(path);
            let start = segment_start(path, end);
            &&& 0 < start < end <= path.len()
            &&& name.len() > 0
            &&& !name.contains('/')
            &&& path[start - 1] == '/'
            &&& forall|i: int| end <= i < path.len() ==> path[i] == '/'
        },
        last_segment(path) is None <==> path.len() == 0 || path[0] != '/' || forall|i: int|
            0 <= i < path.len() ==> path[i] == '/',
{
    lemma_trimmed_len(path);
    let end = trimmed_len(path);
    lemma_segment_start(path, end);
}

proof fn lemma_trimmed_len(path: Seq<char>)
    ensures
        0 <= trimmed_len(path) <= path.len(),
        trimmed_len(path) > 0 ==> path[trimmed_len(path) - 1] != '/',
        forall|i: int| trimmed_len(path) <= i < path.len() ==> path[i] == '/',
    decreases path.len(),
{
    if path.len() > 0 && path.last() == '/' {
        let front = path.drop_last();
        lemma_trimmed_len(front);
        assert forall|i: int| trimmed_len(path) <= i < path.len() implies path[i] == '/' by {
            if i < front.len() {
                assert(front[i] == '/');
            }
        }
    }
}

proof fn lemma_segment_start(path: Seq<char>, end: int)
    requires
        0 <= end <= path.len(),
    ensures
        0 <= segment_start(path, end) <= end,
        segment_start(path, end) > 0 ==> path[segment_start(path, end) - 1] == '/',
        forall|i: int| segment_start(path, end) <= i < end ==> path[i] != '/',
    decreases end,
{
    if 0 < end && path[end - 1] != '/' {
        lemma_segment_start(path, end - 1);
    }
}

impl Cli {
    /// Whether the environment variable `name` is to be passed to the
    /// server: every variable with `env_full`; else, unless `env_clear` is
    /// set, those that begin with `HTTP_` and the CGI meta-variables; and
    /// always those that `env_vars` names.
    pub open spec fn whitelists(&self, name: Seq<char>) -> bool {
        self.env_full || (!self.env_clear && ("HTTP_"@.is_prefix_of(name) || is_cgi_meta_variable(
            name,
        ))) || exists|i: int| 0 <= i < self.env_vars@.len() && (#[trigger] self.env_vars@[i])@ == name
    }

    /// Whether the response headers have to be parsed: to fail on the
    /// status, to leave the headers out, or to write them to a file.
    pub open spec fn needs_headers(&self) -> bool {
        self.response_status_fail_on_gte_400 || !self.response_headers_include
            || self.response_headers_dump_file is Some
    }

    /// The file that the output goes to, `None` standing for standard
    /// output: the file that is named, else the last segment of the URL's
    /// path where that was asked for, else none.
    pub open spec fn output_name(&self) -> Result<Option<Seq<char>>, Failure> {
        match self.output_file_name {
            Some(name) => Ok(Some(name@)),
            None => if self.output_file_remote_name {
                match self.url {
                    Some(url) => match last_segment(url.path@) {
                        Some(name) => Ok(Some(name)),
                        None => Err(Failure::EmptyRemoteName),
                    },
                    None => Err(Failure::EmptyRemoteName),
                }
            } else {
                Ok(None)
            },
        }
    }

    /// The path of an output file: relative to the output directory, where
    /// one is given.
    pub open spec fn output_path(&self, path: Seq<char>) -> Seq<char> {
        match self.output_directory {
            Some(directory) => joined_path(directory@, path),
            None => path,
        }
    }

    /// Decides whether an environment variable is passed to the server.
    pub fn is_envvar_whitelisted(&self, var_name: &str) -> (passed: bool)
        ensures
            passed == self.whitelists(var_name@),
    {
        if self.env_full {
            return true;
        }
        if !self.env_clear {
            if starts_with(var_name, "HTTP_") || is_cgi_meta_var(var_name) {
                return true;
            }
        }
        let mut i: usize = 0;
        while i < self.env_vars.len()
            invariant
                i <= self.env_vars.len(),
                forall|k: int| 0 <= k < i ==> (#[trigger] self.env_vars@[k])@ != var_name@,
            decreases self.env_vars.len() - i,
        {
            if str_eq(self.env_vars[i].as_str(), var_name) {
                return true;
            }
            i += 1;
        }
        false
    }

    /// Decides whether the response headers have to be parsed.
    pub fn need_parse_header(&self) -> (needed: bool)
        ensures
            needed == self.needs_headers(),
    {
        self.response_status_fail_on_gte_400 || !self.response_headers_include
            || self.response_headers_dump_file.is_some()
    }

    /// Decides which file the output goes to; `None` stands for standard
    /// output.
    pub fn real_output_file_name(&self) -> (name: Result<Option<String>, Failure>)
        ensures
            match (name, self.output_name()) {
                (Ok(Some(file)), Ok(Some(chosen))) => file@ == chosen,
                (Ok(None), Ok(None)) => true,
                (Err(failure), Err(expected)) => failure == expected,
                _ => false,
            },
    {
        match &self.output_file_name {
            Some(name) => Ok(Some(name.clone())),
            None => if self.output_file_remote_name {
                match &self.url {
                    Some(url) => match last_path_segment(url.path.as_str()) {
                        Some(name) => Ok(Some(name)),
                        None => Err(Failure::EmptyRemoteName),
                    },
                    None => Err(Failure::EmptyRemoteName),
                }
            } else {
                Ok(None)
            },
        }
    }

    /// The path under which an output file is opened: the path joined to
    /// the output directory where one is given, else the path as it is.
    pub fn resolve_output_path(&self, path: &str) -> (resolved: String)
        ensures
            resolved@ == self.output_path(path@),
    {
        match &self.output_directory {
            Some(directory) => join_path(directory.as_str(), path),
            None => path.to_owned(),
        }
    }

    /// Decides where the body of the request comes from: the string given
    /// on the command line; else standard input, unless the method is `GET`.
    pub fn body_source(&self) -> (source: BodySource)
        ensures
            source == if self.data is Some {
                BodySource::Literal
            } else if self.request_method@ != "GET"@ {
                BodySource::StandardInput
            } else {
                BodySource::Empty
            },
    {
        if self.data.is_some() {
            BodySource::Literal
        } else if !str_eq(self.request_method.as_str(), "GET") {
            BodySource::StandardInput
        } else {
            BodySource::Empty
        }
    }

    /// Decides how the server is reached: over TCP where the address holds a
    /// colon and no slash, else over a Unix domain socket.
    pub fn transport(&self) -> (kind: Transport)
        ensures
            kind == if !self.address@.contains('/') && self.address@.contains(':') {
                Transport::Tcp
            } else {
                Transport::Unix
            },
    {
        if !contains_char(self.address.as_str(), '/') && contains_char(self.address.as_str(), ':') {
            Transport::Tcp
        } else {
            Transport::Unix
        }
    }

    /// The environment variables that are passed to the server, in the
    /// order in which they are given.
    pub fn whitelisted_env(&self, vars: Vec<(String, String)>) -> (passed: Vec<(String, String)>)
        ensures
            passed@ == vars@.filter(|var: (String, String)| self.whitelists(var.0@)),
    {
        let ghost keep = |var: (String, String)| self.whitelists(var.0@);
        let mut passed: Vec<(String, String)> = Vec::new();
        let mut vars = vars;
        let ghost all = vars@;
        let mut i: usize = 0;
        let n: usize = vars.len();
        while i < n
            invariant
                i <= n == vars.len(),
                vars@ == all,
                passed@ == all.take(i as int).filter(keep),
                keep == |var: (String, String)| self.whitelists(var.0@),
            decreases n - i,
        {
            let var = &vars[i];
            proof {
                assert(all.take(i + 1).drop_last() =~= all.take(i as int));
                reveal(Seq::filter);
            }
            if self.is_envvar_whitelisted(var.0.as_str()) {
                let name = var.0.clone();
                let value = var.1.clone();
                passed.push((name, value));
            }
            i += 1;
        }
        assert(all.take(n as int) =~= all);
        passed
    }
}

/// Joins a path to a directory: an absolute path stays as it is, any other
/// is put after the directory, with one slash between the two unless the
/// directory is empty or ends with a slash already.
pub fn join_path(directory: &str, path: &str) -> (whole: String)
    ensures
        whole@ == joined_path(directory@, path@),
{
    let name = chars_of(path);
    if name.len() > 0 && name[0] == '/' {
        return path.to_owned();
    }
    let place = chars_of(directory);
    if place.len() == 0 || place[place.len() - 1] == '/' {
        concat(directory, path)
    } else {
        proof {
            reveal_strlit("/");
            assert("/"@ =~= seq!['/']);
        }
        concat(concat(directory, "/").as_str(), path)
    }
}

/// Whether `name` is one of the CGI meta-variables.
fn is_cgi_meta_var(name: &str) -> (found: bool)
    ensures
        found == is_cgi_meta_variable(name@),
{
    str_eq(name, "AUTH_TYPE") || str_eq(name, "CONTENT_LENGTH") || str_eq(name, "CONTENT_TYPE")
        || str_eq(name, "GATEWAY_INTERFACE") || str_eq(name, "PATH_INFO") || str_eq(
        name,
        "PATH_TRANSLATED",
    ) || str_eq(name, "QUERY_STRING") || str_eq(name, "REMOTE_ADDR") || str_eq(name, "REMOTE_HOST")
        || str_eq(name, "REMOTE_IDENT") || str_eq(name, "REMOTE_USER") || str_eq(
        name,
        "REQUEST_METHOD",
    ) || str_eq(name, "SCRIPT_NAME") || str_eq(name, "SERVER_NAME") || str_eq(name, "SERVER_PORT")
        || str_eq(name, "SERVER_PROTOCOL") || str_eq(name, "SERVER_SOFTWARE")
}

/// The last segment of a URL path that is not empty, where the path begins
/// with a slash and has one.
pub fn last_path_segment(path: &str) -> (name: Option<String>)
    ensures
        match name {
            Some(file) => last_segment(path@) == Some(file@),
            None => last_segment(path@) is None,
        },
{
    let text = chars_of(path);
    if text.len() == 0 || text[0] != '/' {
        return None;
    }
    let mut end: usize = text.len();
    assert(text@.take(end as int) =~= text@);
    while end > 0 && text[end - 1] == '/'
        invariant
            end <= text.len(),
            trimmed_len(text@) == trimmed_len(text@.take(end as int)),
        decreases end,
    {
        assert(text@.take(end as int).drop_last() =~= text@.take(end - 1));
        end -= 1;
    }
    assert(trimmed_len(text@) == end) by {
        let cut = text@.take(end as int);
        if end > 0 {
            assert(cut.last() == text@[end - 1]);
        }
    }
    if end == 0 {
        return None;
    }
    let mut start: usize = end;
    while start > 0 && text[start - 1] != '/'
        invariant
            start <= end <= text.len(),
            segment_start(text@, end as int) == segment_start(text@, start as int),
        decreases start,
    {
        start -= 1;
    }
    Some(string_of(text.as_slice(), start, end))
}

} // verus!
