//! How an MCP server is reached.

use crate::config::settings::McpServerConfig;
use crate::text::{copy_strings, debug_string, debug_text, lower_text, opt_text, str_eq, texts};
use vstd::prelude::*;

verus! {

/// How a server is reached.
#[derive(Debug)]
pub enum Transport {
    /// A child process.
    Stdio { command: String, args: Vec<String>, env: Vec<(String, String)> },
    /// An endpoint.
    Http { url: String, headers: Vec<(String, String)> },
}

/// Pairs of texts.
pub open spec fn pair_views(v: Seq<(String, String)>) -> Seq<(Seq<char>, Seq<char>)> {
    v.map_values(|p: (String, String)| (p.0@, p.1@))
}

/// A character that the name of a header may have.
pub open spec fn is_token_char(c: char) -> bool {
    '0' <= c <= '9' || 'a' <= c <= 'z' || 'A' <= c <= 'Z' || "!#$%&'*+-.^_`|~"@.contains(c)
}

/// The longest name that a header may have.
pub const MAX_NAME: usize = 65535;

/// The text is the name of a header.
pub open spec fn is_header_name(name: Seq<char>) -> bool {
    0 < name.len() <= MAX_NAME && forall|i: int| 0 <= i < name.len() ==> is_token_char(#[trigger] name[i])
}

/// The name of a header as it is sent, in lower case, or why it is none.
pub open spec fn header_name_of(name: Seq<char>) -> Result<Seq<char>, Seq<char>> {
    if is_header_name(name) {
        Ok(lower_text(name))
    } else {
        Err("invalid HTTP header name"@)
    }
}

/// The text is a value of a header: it has no control characters but tabs.
pub open spec fn is_header_value(value: Seq<char>) -> bool {
    forall|i: int| 0 <= i < value.len() ==> ((#[trigger] value[i]) as u32 >= 32 && value[i] as u32 != 127)
        || value[i] == '\t'
}

/// The reason why a text is no value of a header, where it is none.
pub open spec fn header_value_flaw(value: Seq<char>) -> Option<Seq<char>> {
    if is_header_value(value) {
        None
    } else {
        Some("failed to parse header value"@)
    }
}

/// `http::HeaderName::from_bytes` of the text's bytes: a name of token characters within the limit is sent in
/// lower case; of any other text the error says the same.
#[verifier::external_body]
fn header_name(name: &str) -> (r: Result<String, String>)
    ensures
        match r {
            Ok(n) => header_name_of(name@) == Ok::<Seq<char>, Seq<char>>(n@),
            Err(e) => header_name_of(name@) == Err::<Seq<char>, Seq<char>>(e@),
        },
{
    match http::HeaderName::from_bytes(name.as_bytes()) {
        Ok(n) => Ok(n.as_str().to_owned()),
        Err(e) => Err(e.to_string()),
    }
}

/// `http::HeaderValue::from_str`: it takes every text without control characters but tabs, and says the same of
/// any other one. A value is sent as it stands.
#[verifier::external_body]
fn header_value(value: &str) -> (r: Option<String>)
    ensures
        opt_text(r) == header_value_flaw(value@),
{
    match http::HeaderValue::from_str(value) {
        Ok(_) => None,
        Err(e) => Some(e.to_string()),
    }
}

/// What comes of a header, given what its name and its value were found to be.
pub open spec fn header_of(
    key: Seq<char>,
    value: Seq<char>,
    name: Result<Seq<char>, Seq<char>>,
    flaw: Option<Seq<char>>,
) -> Result<(Seq<char>, Seq<char>), Seq<char>> {
    match name {
        Err(e) => Err("invalid header name "@ + debug_text(key) + ": "@ + e),
        Ok(n) => match flaw {
            Some(e) => Err("invalid header value for "@ + debug_text(key) + ": "@ + e),
            None => Ok((n, value)),
        },
    }
}

/// The view of a header.
pub open spec fn header_view(r: Result<(String, String), String>) -> Result<
    (Seq<char>, Seq<char>),
    Seq<char>,
> {
    match r {
        Ok((n, v)) => Ok((n@, v@)),
        Err(e) => Err(e@),
    }
}

/// What comes of a header, given what its name and its value were found to be.
pub fn checked_header(
    key: &str,
    value: &str,
    name: Result<String, String>,
    flaw: Option<String>,
) -> (r: Result<(String, String), String>)
    ensures
        header_view(r) == header_of(
            key@,
            value@,
            match name {
                Ok(n) => Ok(n@),
                Err(e) => Err(e@),
            },
            opt_text(flaw),
        ),
{
    match name {
        Err(e) => {
            let mut s = "invalid header name ".to_owned();
            s.append(debug_string(key).as_str());
            s.append(": ");
            s.append(e.as_str());
            Err(s)
        },
        Ok(n) => match flaw {
            Some(e) => {
                let mut s = "invalid header value for ".to_owned();
                s.append(debug_string(key).as_str());
                s.append(": ");
                s.append(e.as_str());
                Err(s)
            },
            None => Ok((n, value.to_owned())),
        },
    }
}

/// A configured header.
pub open spec fn one_header(h: (Seq<char>, Seq<char>)) -> Result<(Seq<char>, Seq<char>), Seq<char>> {
    header_of(h.0, h.1, header_name_of(h.0), header_value_flaw(h.1))
}

/// The headers that are sent, or what is wrong with the first that cannot be.
pub open spec fn headers_of(raw: Seq<(Seq<char>, Seq<char>)>) -> Result<
    Seq<(Seq<char>, Seq<char>)>,
    Seq<char>,
>
    decreases raw.len(),
{
    if raw.len() == 0 {
        Ok(Seq::empty())
    } else {
        match headers_of(raw.drop_last()) {
            Err(e) => Err(e),
            Ok(hs) => match one_header(raw.last()) {
                Ok(h) => Ok(hs.push(h)),
                Err(e) => Err(e),
            },
        }
    }
}

/// Once a header cannot be sent, its flaw is what comes of any list that begins so.
proof fn lemma_first_flaw(raw: Seq<(Seq<char>, Seq<char>)>, i: int)
    requires
        0 <= i <= raw.len(),
        headers_of(raw.take(i)) is Err,
    ensures
        headers_of(raw) == headers_of(raw.take(i)),
    decreases raw.len(),
{
    if i < raw.len() {
        assert(raw.drop_last().take(i) =~= raw.take(i));
        lemma_first_flaw(raw.drop_last(), i);
    } else {
        assert(raw.take(i) =~= raw);
    }
}

/// The headers that are sent.
pub fn build_headers(raw: &Vec<(String, String)>) -> (r: Result<Vec<(String, String)>, String>)
    ensures
        match r {
            Ok(v) => headers_of(pair_views(raw@)) == Ok::<Seq<(Seq<char>, Seq<char>)>, Seq<char>>(
                pair_views(v@),
            ),
            Err(e) => headers_of(pair_views(raw@)) == Err::<
                Seq<(Seq<char>, Seq<char>)>,
                Seq<char>,
            >(e@),
        },
{
    let ghost rv = pair_views(raw@);
    let mut out: Vec<(String, String)> = Vec::new();
    let mut i: usize = 0;
    assert(rv.take(0) =~= Seq::<(Seq<char>, Seq<char>)>::empty());
    assert(pair_views(out@) =~= Seq::<(Seq<char>, Seq<char>)>::empty());
    while i < raw.len()
        invariant
            i <= raw@.len(),
            rv == pair_views(raw@),
            headers_of(rv.take(i as int)) == Ok::<Seq<(Seq<char>, Seq<char>)>, Seq<char>>(
                pair_views(out@),
            ),
        decreases raw@.len() - i,
    {
        let k = &raw[i].0;
        let v = &raw[i].1;
        assert(rv.take(i + 1).drop_last() =~= rv.take(i as int));
        assert(rv.take(i + 1).last() == (k@, v@));
        let name = header_name(k.as_str());
        let flaw = header_value(v.as_str());
        match checked_header(k.as_str(), v.as_str(), name, flaw) {
            Ok(h) => {
                let ghost before = pair_views(out@);
                let ghost hv = (h.0@, h.1@);
                out.push(h);
                assert(pair_views(out@) =~= before.push(hv));
            },
            Err(e) => {
                proof {
                    lemma_first_flaw(rv, i + 1);
                }
                return Err(e);
            },
        }
        i += 1;
    }
    assert(rv.take(i as int) =~= rv);
    Ok(out)
}

fn dup_pairs(v: &Vec<(String, String)>) -> (r: Vec<(String, String)>)
    ensures
        pair_views(r@) == pair_views(v@),
{
    let ghost pv = pair_views(v@);
    let mut out: Vec<(String, String)> = Vec::new();
    let mut i: usize = 0;
    assert(pair_views(out@) =~= pv.take(0));
    while i < v.len()
        invariant
            i <= v@.len(),
            pv == pair_views(v@),
            pair_views(out@) == pv.take(i as int),
        decreases v@.len() - i,
    {
        let ghost before = pair_views(out@);
        let ghost p = (v@[i as int].0@, v@[i as int].1@);
        out.push((v[i].0.clone(), v[i].1.clone()));
        assert(pair_views(out@) =~= before.push(p));
        assert(pv.take(i + 1) =~= pv.take(i as int).push(p));
        i += 1;
    }
    assert(pv.take(i as int) =~= pv);
    out
}

/// What is said of a server that cannot be reached.
pub open spec fn transport_flaw(cfg: McpServerConfig) -> Option<Seq<char>> {
    if cfg.transport@ == "stdio"@ {
        if cfg.command is None {
            Some("stdio transport requires `command`"@)
        } else {
            None
        }
    } else if cfg.transport@ == "http"@ {
        if cfg.url is None {
            Some("http transport requires `url`"@)
        } else {
            match headers_of(pair_views(cfg.headers@)) {
                Ok(_) => None,
                Err(e) => Some(e),
            }
        }
    } else {
        Some(
            "unknown transport: "@ + cfg.transport@ + " (expected \"stdio\" or \"http\")"@,
        )
    }
}

/// How a configured server is reached, or what is wrong with its configuration.
pub fn connect(cfg: &McpServerConfig) -> (r: Result<Transport, String>)
    ensures
        match r {
            Err(e) => transport_flaw(*cfg) == Some(e@),
            Ok(Transport::Stdio { command, args, env }) => {
                &&& transport_flaw(*cfg) is None
                &&& cfg.transport@ == "stdio"@
                &&& opt_text(cfg.command) == Some(command@)
                &&& texts(args@) == texts(cfg.args@)
                &&& pair_views(env@) == pair_views(cfg.env@)
            },
            Ok(Transport::Http { url, headers }) => {
                &&& transport_flaw(*cfg) is None
                &&& cfg.transport@ == "http"@
                &&& opt_text(cfg.url) == Some(url@)
                &&& headers_of(pair_views(cfg.headers@)) == Ok::<
                    Seq<(Seq<char>, Seq<char>)>,
                    Seq<char>,
                >(pair_views(headers@))
            },
        },
{
    proof {
        reveal_strlit("stdio");
        reveal_strlit("http");
        assert("stdio"@.len() == 5 && "http"@.len() == 4);
    }
    if str_eq(cfg.transport.as_str(), "stdio") {
        match &cfg.command {
            Some(c) => Ok(
                Transport::Stdio {
                    command: c.clone(),
                    args: copy_strings(&cfg.args),
                    env: dup_pairs(&cfg.env),
                },
            ),
            None => Err("stdio transport requires `command`".to_owned()),
        }
    } else if str_eq(cfg.transport.as_str(), "http") {
        match &cfg.url {
            Some(u) => match build_headers(&cfg.headers) {
                Ok(headers) => Ok(Transport::Http { url: u.clone(), headers }),
                Err(e) => Err(e),
            },
            None => Err("http transport requires `url`".to_owned()),
        }
    } else {
        let mut s = "unknown transport: ".to_owned();
        s.append(cfg.transport.as_str());
        s.append(" (expected \"stdio\" or \"http\")");
        Err(s)
    }
}

/// The headers are taken over in their order, each name in small letters and each value as it is; the first that is
/// no header refuses them all.
pub proof fn law_headers_taken(raw: Seq<(Seq<char>, Seq<char>)>, k: Seq<char>, v: Seq<char>)
    ensures
        headers_of(Seq::empty()) == Ok::<Seq<(Seq<char>, Seq<char>)>, Seq<char>>(Seq::empty()),
        headers_of(raw) matches Err(e) ==> headers_of(raw.push((k, v))) == Err::<
            Seq<(Seq<char>, Seq<char>)>,
            Seq<char>,
        >(e),
        headers_of(raw) matches Ok(hs) ==> {
            &&& is_header_name(k) && is_header_value(v) ==> headers_of(raw.push((k, v))) == Ok::<
                Seq<(Seq<char>, Seq<char>)>,
                Seq<char>,
            >(hs + seq![(lower_text(k), v)])
            &&& !is_header_name(k) ==> headers_of(raw.push((k, v))) == Err::<
                Seq<(Seq<char>, Seq<char>)>,
                Seq<char>,
            >("invalid header name "@ + debug_text(k) + ": "@ + "invalid HTTP header name"@)
            &&& is_header_name(k) && !is_header_value(v) ==> headers_of(raw.push((k, v))) == Err::<
                Seq<(Seq<char>, Seq<char>)>,
                Seq<char>,
            >("invalid header value for "@ + debug_text(k) + ": "@ + "failed to parse header value"@)
        },
{
    assert(raw.push((k, v)).drop_last() =~= raw);
    assert(raw.push((k, v)).last() == (k, v));
    if let Ok(hs) = headers_of(raw) {
        assert(hs.push((lower_text(k), v)) =~= hs + seq![(lower_text(k), v)]);
    }
}

/// The name of a header has letters, digits and certain marks, and at least one; its value has no control
/// characters but tabs.
pub proof fn law_header_characters(name: Seq<char>, value: Seq<char>, i: int)
    ensures
        is_header_name(name) ==> name.len() > 0,
        is_header_name(name) && 0 <= i < name.len() ==> {
            ||| '0' <= name[i] <= '9'
            ||| 'a' <= name[i] <= 'z'
            ||| 'A' <= name[i] <= 'Z'
            ||| "!#$%&'*+-.^_`|~"@.contains(name[i])
        },
        0 < name.len() < 65536 && (forall|k: int|
            0 <= k < name.len() ==> ('0' <= (#[trigger] name[k]) <= '9' || 'a' <= name[k] <= 'z' || 'A'
                <= name[k] <= 'Z' || "!#$%&'*+-.^_`|~"@.contains(name[k]))) ==> is_header_name(name),
        is_header_value(value) && 0 <= i < value.len() ==> value[i] == '\t' || (value[i] as u32 >= 32
            && value[i] as u32 != 127),
        (forall|k: int|
            0 <= k < value.len() ==> ((#[trigger] value[k]) == '\t' || (value[k] as u32 >= 32 && value[k] as u32
                != 127))) ==> is_header_value(value),
{
    if 0 <= i < name.len() && is_header_name(name) {
        assert(is_token_char(name[i]));
    }
    if forall|k: int|
        0 <= k < name.len() ==> ('0' <= (#[trigger] name[k]) <= '9' || 'a' <= name[k] <= 'z' || 'A' <= name[k]
            <= 'Z' || "!#$%&'*+-.^_`|~"@.contains(name[k])) {
        assert forall|k: int| 0 <= k < name.len() implies is_token_char(#[trigger] name[k]) by {}
    }
}

/// A server that is started needs a command, one that is reached over the network an address and good headers, and
/// there is no other kind.
pub proof fn law_server_refused(cfg: McpServerConfig)
    ensures
        cfg.transport@ == "stdio"@ && cfg.command is Some ==> transport_flaw(cfg) is None,
        cfg.transport@ == "stdio"@ && cfg.command is None ==> transport_flaw(cfg) == Some(
            "stdio transport requires `command`"@,
        ),
        cfg.transport@ == "http"@ && cfg.url is None ==> transport_flaw(cfg) == Some(
            "http transport requires `url`"@,
        ),
        cfg.transport@ == "http"@ && cfg.url is Some && headers_of(pair_views(cfg.headers@)) is Ok
            ==> transport_flaw(cfg) is None,
        cfg.transport@ == "http"@ && cfg.url is Some ==> (headers_of(pair_views(cfg.headers@)) matches Err(e)
            ==> transport_flaw(cfg) == Some(e)),
        cfg.transport@ != "stdio"@ && cfg.transport@ != "http"@ ==> transport_flaw(cfg) == Some(
            "unknown transport: "@ + cfg.transport@ + " (expected \"stdio\" or \"http\")"@,
        ),
{
    reveal_strlit("stdio");
    reveal_strlit("http");
    assert("stdio"@.len() == 5 && "http"@.len() == 4);
}

} // verus!
