//! Which tools an agent gets.
use vstd::prelude::*;
use crate::agent_rt::mcp_client;
use crate::agent_rt::mcp_client::McpClientSession;
use crate::agent_rt::types;
use crate::util::text;
use crate::util::text::{parse_u64, split_on, str_eq, to_lower, trim};

verus! {

/// A tool that an agent may get.
#[derive(Debug, Clone, Copy, PartialEq, Eq, Structural)]
pub enum ToolKind {
    ReadFile,
    WriteFile,
    ListDir,
    EditFile,
    Shell,
    Git,
    WebSearch,
    WebFetch,
    HttpRequest,
}

/// The name of a tool.
pub open spec fn name_of(k: ToolKind) -> Seq<char> {
    match k {
        ToolKind::ReadFile => "read_file"@,
        ToolKind::WriteFile => "write_file"@,
        ToolKind::ListDir => "list_dir"@,
        ToolKind::EditFile => "edit_file"@,
        ToolKind::Shell => "shell"@,
        ToolKind::Git => "git"@,
        ToolKind::WebSearch => "web_search"@,
        ToolKind::WebFetch => "web_fetch"@,
        ToolKind::HttpRequest => "http_request"@,
    }
}

/// The tool of a name, where it is to be had: versions need their program, requests over HTTP
/// need somewhere to go.
pub open spec fn tool_named(name: Seq<char>, git: bool, http: bool) -> Option<ToolKind> {
    if name == "read_file"@ {
        Some(ToolKind::ReadFile)
    } else if name == "write_file"@ {
        Some(ToolKind::WriteFile)
    } else if name == "list_dir"@ {
        Some(ToolKind::ListDir)
    } else if name == "edit_file"@ {
        Some(ToolKind::EditFile)
    } else if name == "shell"@ {
        Some(ToolKind::Shell)
    } else if name == "git"@ {
        if git {
            Some(ToolKind::Git)
        } else {
            None
        }
    } else if name == "web_search"@ {
        Some(ToolKind::WebSearch)
    } else if name == "web_fetch"@ {
        Some(ToolKind::WebFetch)
    } else if name == "http_request"@ {
        if http {
            Some(ToolKind::HttpRequest)
        } else {
            None
        }
    } else {
        None
    }
}

/// A name without white space around it, in lower case.
pub open spec fn normalized(name: Seq<char>) -> Seq<char> {
    text::lowered(text::trimmed(name))
}

/// A name is among the names of a list.
pub open spec fn named_in(names: Seq<Seq<char>>, name: Seq<char>) -> bool {
    exists|i: int| 0 <= i < names.len() && normalized(#[trigger] names[i]) == name
}

/// The tools that a list of names asks for, in order, each once. Unknown names, and tools that
/// are not to be had, are left out.
pub open spec fn chosen(names: Seq<Seq<char>>, git: bool, http: bool) -> Seq<ToolKind>
    decreases names.len(),
{
    if names.len() == 0 {
        Seq::empty()
    } else {
        let before = chosen(names.drop_last(), git, http);
        let n = normalized(names.last());
        if n.len() == 0 || named_in(names.drop_last(), n) {
            before
        } else {
            match tool_named(n, git, http) {
                Some(k) => before.push(k),
                None => before,
            }
        }
    }
}

/// Chooses tools for agents. Nothing is chosen that was not asked for.
#[derive(Debug, Clone, Copy, PartialEq, Eq, Structural)]
pub struct DefaultToolFactory;

impl DefaultToolFactory {
    /// The factory; what it needs of the environment is given with each choice.
    pub fn from_env() -> (r: Self)
        ensures
            r == DefaultToolFactory,
    {
        DefaultToolFactory
    }

    /// The tool of a name, where it is to be had.
    pub fn tool_by_name(&self, name: &str, git: bool, http: bool) -> (r: Option<ToolKind>)
        ensures
            r == tool_named(name@, git, http),
    {
        if str_eq(name, "read_file") {
            Some(ToolKind::ReadFile)
        } else if str_eq(name, "write_file") {
            Some(ToolKind::WriteFile)
        } else if str_eq(name, "list_dir") {
            Some(ToolKind::ListDir)
        } else if str_eq(name, "edit_file") {
            Some(ToolKind::EditFile)
        } else if str_eq(name, "shell") {
            Some(ToolKind::Shell)
        } else if str_eq(name, "git") {
            if git {
                Some(ToolKind::Git)
            } else {
                None
            }
        } else if str_eq(name, "web_search") {
            Some(ToolKind::WebSearch)
        } else if str_eq(name, "web_fetch") {
            Some(ToolKind::WebFetch)
        } else if str_eq(name, "http_request") {
            if http {
                Some(ToolKind::HttpRequest)
            } else {
                None
            }
        } else {
            None
        }
    }

    /// The tools that a list of names asks for. Without a list there are none.
    pub fn choose_tools(&self, whitelist: Option<&Vec<String>>, git: bool, http: bool) -> (r: Vec<
        ToolKind,
    >)
        ensures
            r@ == match whitelist {
                Some(names) => chosen(text::strings_view(names@), git, http),
                None => Seq::empty(),
            },
    {
        let mut out: Vec<ToolKind> = Vec::new();
        let names: &Vec<String> = match whitelist {
            Some(names) => names,
            None => {
                return out;
            },
        };
        let ghost all = text::strings_view(names@);
        let mut seen: Vec<String> = Vec::new();
        let mut i: usize = 0;
        assert(all.take(0) =~= Seq::<Seq<char>>::empty());
        while i < names.len()
            invariant
                i <= names@.len(),
                all == text::strings_view(names@),
                seen@.len() == i,
                forall|j: int| 0 <= j < i ==> (#[trigger] seen@[j])@ == normalized(all[j]),
                out@ == chosen(all.take(i as int), git, http),
            decreases names@.len() - i,
        {
            let t: String = trim(names[i].as_str());
            let n: String = to_lower(t.as_str());
            let ghost before = all.take(i as int);
            assert(all.take(i + 1).drop_last() =~= before);
            assert(all.take(i + 1).last() == all[i as int]);
            assert(n@ == normalized(all[i as int]));
            let known: bool = has_name(&seen, n.as_str());
            proof {
                assert(known == named_in(before, n@)) by {
                    if known {
                        let j = choose|j: int| 0 <= j < seen@.len() && (#[trigger] seen@[j])@ == n@;
                        assert(normalized(before[j]) == n@);
                    }
                    if named_in(before, n@) {
                        let j = choose|j: int|
                            0 <= j < before.len() && normalized(#[trigger] before[j]) == n@;
                        assert(seen@[j]@ == n@);
                    }
                }
            }
            if n.as_str().unicode_len() > 0 && !known {
                if let Some(k) = self.tool_by_name(n.as_str(), git, http) {
                    out.push(k);
                }
            }
            seen.push(n);
            i += 1;
        }
        assert(all.take(i as int) =~= all);
        out
    }
}

/// Whether a text is in a list.
pub fn has_name(list: &Vec<String>, name: &str) -> (r: bool)
    ensures
        r == exists|j: int| 0 <= j < list@.len() && (#[trigger] list@[j])@ == name@,
{
    let mut i: usize = 0;
    while i < list.len()
        invariant
            i <= list@.len(),
            forall|j: int| 0 <= j < i ==> (#[trigger] list@[j])@ != name@,
        decreases list@.len() - i,
    {
        if str_eq(list[i].as_str(), name) {
            assert(list@[i as int]@ == name@);
            return true;
        }
        i += 1;
    }
    false
}

// ---------------------------------------------------------------------------
// Settings of tools
// ---------------------------------------------------------------------------
/// What an optional text is.
pub open spec fn opt_text(o: Option<&str>) -> Option<Seq<char>> {
    match o {
        Some(s) => Some(s@),
        None => None,
    }
}

/// A text without white space around it, where there is anything left.
pub open spec fn filled(o: Option<Seq<char>>) -> Option<Seq<char>> {
    match o {
        Some(s) => if text::trimmed(s).len() > 0 {
            Some(text::trimmed(s))
        } else {
            None
        },
        None => None,
    }
}

fn filled_text(o: Option<&str>) -> (r: Option<String>)
    ensures
        (match r {
            Some(s) => Some(s@),
            None => None,
        }) == filled(opt_text(o)),
{
    match o {
        Some(s) => {
            let t: String = trim(s);
            if t.as_str().unicode_len() > 0 {
                Some(t)
            } else {
                None
            }
        },
        None => None,
    }
}

/// A number that fits a size, or a default.
pub open spec fn size_or(o: Option<Seq<char>>, default: usize) -> usize {
    match o {
        Some(s) => match text::number(s) {
            Ok(n) => if n <= usize::MAX {
                n as usize
            } else {
                default
            },
            Err(_) => default,
        },
        None => default,
    }
}

fn read_size(o: Option<&str>, default: usize) -> (r: usize)
    ensures
        r == size_or(opt_text(o), default),
{
    match o {
        Some(s) => match parse_u64(s) {
            Ok(n) => if n <= usize::MAX as u64 {
                n as usize
            } else {
                default
            },
            Err(_) => default,
        },
        None => default,
    }
}

/// How many results a search gives at most: between one and ten, five by default.
pub fn search_max_results(value: Option<&str>) -> (r: usize)
    ensures
        ({
            let n = size_or(opt_text(value), 5);
            r == if n < 1 {
                1
            } else if n > 10 {
                10
            } else {
                n
            }
        }),
{
    let n: usize = read_size(value, 5);
    if n < 1 {
        1
    } else if n > 10 {
        10
    } else {
        n
    }
}

/// A way to search.
#[derive(Debug, PartialEq, Eq)]
pub enum SearchChoice {
    Searxng(String),
    Brave(String),
    Ddg,
}

/// What a way to search is.
pub enum SearchV {
    Searxng(Seq<char>),
    Brave(Seq<char>),
    Ddg,
}

impl View for SearchChoice {
    type V = SearchV;

    open spec fn view(&self) -> SearchV {
        match self {
            SearchChoice::Searxng(u) => SearchV::Searxng(u@),
            SearchChoice::Brave(k) => SearchV::Brave(k@),
            SearchChoice::Ddg => SearchV::Ddg,
        }
    }
}

/// What ways to search are.
pub open spec fn searches_view(s: Seq<SearchChoice>) -> Seq<SearchV> {
    s.map_values(|c: SearchChoice| c@)
}

/// The ways to search, in the order in which they are tried. The last one always works. A
/// provider that is named is tried alone; otherwise all that have what they need.
pub open spec fn searches(
    provider: Option<Seq<char>>,
    url: Option<Seq<char>>,
    key: Option<Seq<char>>,
) -> Seq<SearchV> {
    let by_url = match url {
        Some(u) => seq![SearchV::Searxng(u)],
        None => Seq::empty(),
    };
    let by_key = match key {
        Some(k) => seq![SearchV::Brave(k)],
        None => Seq::empty(),
    };
    let last = seq![SearchV::Ddg];
    if provider == Some("searxng"@) {
        by_url + last
    } else if provider == Some("brave"@) {
        by_key + last
    } else if provider == Some("ddg"@) {
        last
    } else {
        by_url + by_key + last
    }
}

/// The provider that is named, in lower case.
pub open spec fn provider_named(o: Option<Seq<char>>) -> Option<Seq<char>> {
    match filled(o) {
        Some(s) => Some(text::lowered(s)),
        None => None,
    }
}

/// The ways to search, in the order in which they are tried.
pub fn search_choices(
    provider: Option<&str>,
    api_url: Option<&str>,
    brave_key: Option<String>,
) -> (r: Vec<SearchChoice>)
    ensures
        searches_view(r@) == searches(
            provider_named(opt_text(provider)),
            filled(opt_text(api_url)),
            types::opt_str(brave_key),
        ),
{
    let ghost key = types::opt_str(brave_key);
    let name: Option<String> = match filled_text(provider) {
        Some(s) => Some(to_lower(s.as_str())),
        None => None,
    };
    let url: Option<String> = filled_text(api_url);
    let ghost u = filled(opt_text(api_url));
    let (first, second): (bool, bool) = match &name {
        Some(n) => {
            if str_eq(n.as_str(), "searxng") {
                (true, false)
            } else if str_eq(n.as_str(), "brave") {
                (false, true)
            } else if str_eq(n.as_str(), "ddg") {
                (false, false)
            } else {
                (true, true)
            }
        },
        None => (true, true),
    };
    proof {
        lemma_providers();
    }
    let mut out: Vec<SearchChoice> = Vec::new();
    if first {
        if let Some(a) = url {
            out.push(SearchChoice::Searxng(a));
        }
    }
    if second {
        if let Some(k) = brave_key {
            out.push(SearchChoice::Brave(k));
        }
    }
    out.push(SearchChoice::Ddg);
    assert(searches_view(out@) =~= searches(provider_named(opt_text(provider)), u, key));
    out
}

proof fn lemma_providers()
    ensures
        "searxng"@ != "brave"@,
        "searxng"@ != "ddg"@,
        "brave"@ != "ddg"@,
{
    reveal_strlit("searxng");
    reveal_strlit("brave");
    reveal_strlit("ddg");
    assert("searxng"@.len() == 7 && "brave"@.len() == 5 && "ddg"@.len() == 3);
}

/// The first text of a list that is not blank, without white space around it.
pub open spec fn first_filled(values: Seq<Option<Seq<char>>>) -> Option<Seq<char>>
    decreases values.len(),
{
    if values.len() == 0 {
        None
    } else {
        match filled(values[0]) {
            Some(s) => Some(s),
            None => first_filled(values.drop_first()),
        }
    }
}

/// The key for a search: the first of three values that is not blank.
pub fn brave_api_key(a: Option<&str>, b: Option<&str>, c: Option<&str>) -> (r: Option<String>)
    ensures
        (match r {
            Some(s) => Some(s@),
            None => None,
        }) == first_filled(seq![opt_text(a), opt_text(b), opt_text(c)]),
{
    proof {
        let all = seq![opt_text(a), opt_text(b), opt_text(c)];
        reveal_with_fuel(first_filled, 4);
        assert(all.drop_first() =~= seq![opt_text(b), opt_text(c)]);
        assert(all.drop_first().drop_first() =~= seq![opt_text(c)]);
        assert(all.drop_first().drop_first().drop_first() =~= Seq::empty());
    }
    if let Some(k) = filled_text(a) {
        return Some(k);
    }
    if let Some(k) = filled_text(b) {
        return Some(k);
    }
    filled_text(c)
}

/// The parts of a list that are not blank, without white space around them.
pub open spec fn filled_parts(parts: Seq<Seq<char>>) -> Seq<Seq<char>>
    decreases parts.len(),
{
    if parts.len() == 0 {
        Seq::empty()
    } else {
        let before = filled_parts(parts.drop_last());
        if text::trimmed(parts.last()).len() > 0 {
            before.push(text::trimmed(parts.last()))
        } else {
            before
        }
    }
}

/// The parts of a list that is separated by commas. Without a list there are none.
pub fn parse_csv(value: Option<&str>) -> (r: Vec<String>)
    ensures
        text::strings_view(r@) == match opt_text(value) {
            Some(s) => filled_parts(text::split(s, ',')),
            None => Seq::empty(),
        },
{
    let mut out: Vec<String> = Vec::new();
    assert(text::strings_view(out@) =~= Seq::<Seq<char>>::empty());
    let s: &str = match value {
        Some(s) => s,
        None => {
            return out;
        },
    };
    let parts: Vec<String> = split_on(s, ',');
    let ghost all = text::strings_view(parts@);
    let mut i: usize = 0;
    assert(all.take(0) =~= Seq::<Seq<char>>::empty());
    while i < parts.len()
        invariant
            i <= parts@.len(),
            all == text::strings_view(parts@),
            text::strings_view(out@) == filled_parts(all.take(i as int)),
        decreases parts@.len() - i,
    {
        assert(all.take(i + 1).drop_last() =~= all.take(i as int));
        assert(all[i as int] == parts@[i as int]@);
        let t: String = trim(parts[i].as_str());
        if t.as_str().unicode_len() > 0 {
            let ghost before = text::strings_view(out@);
            out.push(t);
            assert(text::strings_view(out@) =~= before.push(t@));
        }
        i += 1;
    }
    assert(all.take(i as int) =~= all);
    out
}

/// The settings of requests over HTTP.
#[derive(Debug, PartialEq, Eq)]
pub struct HttpSettings {
    pub allowed_domains: Vec<String>,
    pub timeout_secs: u64,
    pub max_response_bytes: usize,
}

/// The settings of requests over HTTP. There are none where no domain is allowed.
pub fn http_settings(domains: Option<&str>, timeout: Option<&str>, max_bytes: Option<&str>) -> (r:
    Option<HttpSettings>)
    ensures
        ({
            let allowed = match opt_text(domains) {
                Some(s) => filled_parts(text::split(s, ',')),
                None => Seq::empty(),
            };
            match r {
                None => allowed.len() == 0,
                Some(h) => {
                    &&& allowed.len() > 0
                    &&& text::strings_view(h.allowed_domains@) == allowed
                    &&& h.timeout_secs == match opt_text(timeout) {
                        Some(s) => match text::number(s) {
                            Ok(n) => n,
                            Err(_) => 30,
                        },
                        None => 30,
                    }
                    &&& h.max_response_bytes == size_or(opt_text(max_bytes), 200_000)
                },
            }
        }),
{
    let allowed_domains: Vec<String> = parse_csv(domains);
    assert(text::strings_view(allowed_domains@).len() == allowed_domains@.len());
    if allowed_domains.len() == 0 {
        return None;
    }
    let timeout_secs: u64 = match timeout {
        Some(s) => match parse_u64(s) {
            Ok(n) => n,
            Err(_) => 30,
        },
        None => 30,
    };
    Some(
        HttpSettings {
            allowed_domains,
            timeout_secs,
            max_response_bytes: read_size(max_bytes, 200_000),
        },
    )
}

// ---------------------------------------------------------------------------
// Tools of outside servers
// ---------------------------------------------------------------------------
/// The names in a list that name tools of outside servers, or those that do not.
pub open spec fn names_of_kind(names: Seq<Seq<char>>, remote: bool) -> Seq<Seq<char>>
    decreases names.len(),
{
    if names.len() == 0 {
        Seq::empty()
    } else {
        let before = names_of_kind(names.drop_last(), remote);
        if mcp_client::is_remote_name(names.last()) == remote {
            before.push(names.last())
        } else {
            before
        }
    }
}

/// The names in a list that name tools of outside servers, or those that do not, in order.
pub fn select_names(names: &Vec<String>, remote: bool) -> (r: Vec<String>)
    ensures
        text::strings_view(r@) == names_of_kind(text::strings_view(names@), remote),
{
    let ghost all = text::strings_view(names@);
    let mut out: Vec<String> = Vec::new();
    let mut i: usize = 0;
    assert(all.take(0) =~= Seq::<Seq<char>>::empty());
    assert(text::strings_view(out@) =~= Seq::<Seq<char>>::empty());
    while i < names.len()
        invariant
            i <= names@.len(),
            all == text::strings_view(names@),
            text::strings_view(out@) == names_of_kind(all.take(i as int), remote),
        decreases names@.len() - i,
    {
        assert(all.take(i + 1).drop_last() =~= all.take(i as int));
        assert(all[i as int] == names@[i as int]@);
        if McpClientSession::is_mcp_tool_name(names[i].as_str()) == remote {
            let ghost before = text::strings_view(out@);
            out.push(names[i].clone());
            assert(text::strings_view(out@) =~= before.push(names@[i as int]@));
        }
        i += 1;
    }
    assert(all.take(i as int) =~= all);
    out
}

/// The positions of the tools on offer that were asked for, in order.
pub open spec fn wanted_positions(offered: Seq<Seq<char>>, wanted: Seq<Seq<char>>) -> Seq<int>
    decreases offered.len(),
{
    if offered.len() == 0 {
        Seq::empty()
    } else {
        let before = wanted_positions(offered.drop_last(), wanted);
        if wanted.contains(offered.last()) {
            before.push(offered.len() - 1)
        } else {
            before
        }
    }
}

/// Positions in a list.
pub open spec fn positions_view(s: Seq<usize>) -> Seq<int> {
    s.map_values(|i: usize| i as int)
}

/// The positions of the tools on offer that were asked for, in order.
pub fn wanted_tools(offered: &Vec<String>, wanted: &Vec<String>) -> (r: Vec<usize>)
    ensures
        positions_view(r@) == wanted_positions(
            text::strings_view(offered@),
            text::strings_view(wanted@),
        ),
{
    let ghost all = text::strings_view(offered@);
    let ghost want = text::strings_view(wanted@);
    let mut out: Vec<usize> = Vec::new();
    let mut i: usize = 0;
    assert(all.take(0) =~= Seq::<Seq<char>>::empty());
    assert(positions_view(out@) =~= Seq::<int>::empty());
    while i < offered.len()
        invariant
            i <= offered@.len(),
            all == text::strings_view(offered@),
            want == text::strings_view(wanted@),
            positions_view(out@) == wanted_positions(all.take(i as int), want),
        decreases offered@.len() - i,
    {
        let ghost before = positions_view(out@);
        let ghost now = all.take(i + 1);
        assert(now.drop_last() =~= all.take(i as int));
        assert(now.last() == offered@[i as int]@);
        let yes: bool = has_name(wanted, offered[i].as_str());
        proof {
            assert(yes == want.contains(now.last())) by {
                if yes {
                    let j = choose|j: int|
                        0 <= j < wanted@.len() && (#[trigger] wanted@[j])@ == now.last();
                    assert(want[j] == now.last());
                }
                if want.contains(now.last()) {
                    let j = choose|j: int| 0 <= j < want.len() && want[j] == now.last();
                    assert(wanted@[j]@ == now.last());
                }
            }
        }
        if yes {
            out.push(i);
            assert(positions_view(out@) =~= before.push(i as int));
        }
        i += 1;
    }
    assert(all.take(i as int) =~= all);
    out
}

// ---------------------------------------------------------------------------
// What holds of every choice
// ---------------------------------------------------------------------------
proof fn lemma_name_of_tool(n: Seq<char>, git: bool, http: bool)
    ensures
        tool_named(n, git, http) matches Some(k) ==> name_of(k) == n,
{
}

/// Every tool that is chosen was asked for by its name.
pub proof fn law_only_what_was_asked(names: Seq<Seq<char>>, git: bool, http: bool, i: int)
    requires
        0 <= i < chosen(names, git, http).len(),
    ensures
        named_in(names, name_of(chosen(names, git, http)[i])),
    decreases names.len(),
{
    let before = chosen(names.drop_last(), git, http);
    let n = normalized(names.last());
    lemma_name_of_tool(n, git, http);
    if i < before.len() {
        law_only_what_was_asked(names.drop_last(), git, http, i);
        let w = name_of(before[i]);
        let j = choose|j: int|
            0 <= j < names.drop_last().len() && normalized(#[trigger] names.drop_last()[j]) == w;
        assert(normalized(names[j]) == w);
    } else {
        assert(normalized(names[names.len() - 1]) == n);
    }
}

/// No tool is chosen twice.
pub proof fn law_no_tool_twice(names: Seq<Seq<char>>, git: bool, http: bool)
    ensures
        chosen(names, git, http).no_duplicates(),
    decreases names.len(),
{
    if names.len() > 0 {
        let before = chosen(names.drop_last(), git, http);
        let n = normalized(names.last());
        law_no_tool_twice(names.drop_last(), git, http);
        lemma_name_of_tool(n, git, http);
        assert forall|i: int| 0 <= i < before.len() implies name_of(#[trigger] before[i]) != n
            || named_in(names.drop_last(), n) by {
            law_only_what_was_asked(names.drop_last(), git, http, i);
        }
    }
}

/// The tool of a name is the one that has the name, where it is to be had.
pub proof fn law_tool_has_its_name(k: ToolKind, git: bool, http: bool)
    ensures
        tool_named(name_of(k), git, http) == if (k == ToolKind::Git && !git) || (k
            == ToolKind::HttpRequest && !http) {
            None
        } else {
            Some(k)
        },
{
    reveal_strlit("read_file");
    reveal_strlit("write_file");
    reveal_strlit("list_dir");
    reveal_strlit("edit_file");
    reveal_strlit("shell");
    reveal_strlit("git");
    reveal_strlit("web_search");
    reveal_strlit("web_fetch");
    reveal_strlit("http_request");
    assert("read_file"@.len() == 9 && "write_file"@.len() == 10 && "list_dir"@.len() == 8
        && "edit_file"@.len() == 9 && "shell"@.len() == 5 && "git"@.len() == 3
        && "web_search"@.len() == 10 && "web_fetch"@.len() == 9 && "http_request"@.len() == 12);
    assert("read_file"@[0] == 'r' && "edit_file"@[0] == 'e' && "web_fetch"@[0] == 'w');
    assert("write_file"@[1] == 'r' && "web_search"@[1] == 'e');
}

/// Whatever is asked for by its name and is to be had is chosen.
pub proof fn law_asked_is_chosen(names: Seq<Seq<char>>, git: bool, http: bool, i: int)
    requires
        0 <= i < names.len(),
        normalized(names[i]).len() > 0,
        tool_named(normalized(names[i]), git, http) is Some,
    ensures
        chosen(names, git, http).contains(tool_named(normalized(names[i]), git, http)->0),
    decreases names.len(),
{
    let front = names.drop_last();
    let before = chosen(front, git, http);
    let n = normalized(names.last());
    let k = tool_named(normalized(names[i]), git, http)->0;
    let all = chosen(names, git, http);
    if i < front.len() {
        assert(front[i] == names[i]);
        law_asked_is_chosen(front, git, http, i);
        let j = choose|j: int| 0 <= j < before.len() && before[j] == k;
        assert(all[j] == k);
    } else if named_in(front, n) {
        let j = choose|j: int| 0 <= j < front.len() && normalized(#[trigger] front[j]) == n;
        law_asked_is_chosen(front, git, http, j);
    } else {
        assert(all[all.len() - 1] == k);
    }
}

/// The positions that are chosen are those of the tools that were asked for, all of them and in
/// their order.
pub proof fn law_wanted_found(offered: Seq<Seq<char>>, wanted: Seq<Seq<char>>)
    ensures
        forall|i: int| #[trigger]
            wanted_positions(offered, wanted).contains(i) <==> 0 <= i < offered.len()
                && wanted.contains(offered[i]),
        forall|a: int, b: int|
            0 <= a < b < wanted_positions(offered, wanted).len() ==> (#[trigger] wanted_positions(
                offered,
                wanted,
            )[a]) < (#[trigger] wanted_positions(offered, wanted)[b]),
    decreases offered.len(),
{
    let all = wanted_positions(offered, wanted);
    if offered.len() > 0 {
        let front = offered.drop_last();
        let before = wanted_positions(front, wanted);
        law_wanted_found(front, wanted);
        let n = offered.len() - 1;
        assert forall|i: int| #[trigger] all.contains(i) implies 0 <= i < offered.len()
            && wanted.contains(offered[i]) by {
            let j = choose|j: int| 0 <= j < all.len() && all[j] == i;
            if j < before.len() {
                assert(before[j] == i);
                assert(before.contains(i));
                assert(front[i] == offered[i]);
            }
        }
        assert forall|i: int| 0 <= i < offered.len() && wanted.contains(offered[i]) implies #[trigger] all.contains(
            i,
        ) by {
            if i < n {
                assert(front[i] == offered[i]);
                assert(before.contains(i));
                let j = choose|j: int| 0 <= j < before.len() && before[j] == i;
                assert(all[j] == i);
            } else {
                assert(all[all.len() - 1] == i);
            }
        }
        assert forall|a: int, b: int| 0 <= a < b < all.len() implies (#[trigger] all[a]) < (
        #[trigger] all[b]) by {
            assert(before.contains(before[a])) by {
                assert(a < before.len());
            }
            if b < before.len() {
                assert(before[a] < before[b]);
            }
        }
    }
}

/// The names of a list are split in two without loss: those of outside tools and the others, each
/// in their order.
pub proof fn law_names_split(names: Seq<Seq<char>>, remote: bool)
    ensures
        names_of_kind(names, remote) == names.filter(
            |n: Seq<char>| mcp_client::is_remote_name(n) == remote,
        ),
    decreases names.len(),
{
    reveal(Seq::filter);
    if names.len() > 0 {
        law_names_split(names.drop_last(), remote);
    } else {
        assert(names_of_kind(names, remote) =~= names.filter(
            |n: Seq<char>| mcp_client::is_remote_name(n) == remote,
        ));
    }
}

/// The parts of a list are all that are not blank, in their order, without the white space around
/// them.
pub proof fn law_filled_parts_kept(parts: Seq<Seq<char>>)
    ensures
        filled_parts(parts) == parts.map_values(|p: Seq<char>| text::trimmed(p)).filter(
            |p: Seq<char>| p.len() > 0,
        ),
    decreases parts.len(),
{
    reveal(Seq::filter);
    let f = |p: Seq<char>| text::trimmed(p);
    let g = |p: Seq<char>| p.len() > 0;
    if parts.len() > 0 {
        law_filled_parts_kept(parts.drop_last());
        assert(parts.map_values(f).drop_last() =~= parts.drop_last().map_values(f));
    } else {
        assert(parts.map_values(f).filter(g) =~= Seq::<Seq<char>>::empty());
    }
}

/// The first value that is not blank is the one that counts.
pub proof fn law_first_filled_counts(values: Seq<Option<Seq<char>>>, i: int)
    requires
        0 <= i < values.len(),
        filled(values[i]) is Some,
        forall|j: int| 0 <= j < i ==> filled(#[trigger] values[j]) is None,
    ensures
        first_filled(values) == filled(values[i]),
    decreases i,
{
    if i > 0 {
        assert(filled(values[0]) is None);
        let t = values.drop_first();
        assert(t[i - 1] == values[i]);
        assert forall|j: int| 0 <= j < i - 1 implies filled(#[trigger] t[j]) is None by {
            assert(t[j] == values[j + 1]);
        }
        law_first_filled_counts(t, i - 1);
    }
}

/// There is always a way to search, and the one that needs nothing comes last and once. An address
/// or a key is used exactly where no other provider was named.
pub proof fn law_search_always_works(
    provider: Option<Seq<char>>,
    url: Option<Seq<char>>,
    key: Option<Seq<char>>,
)
    requires
        provider is None || provider == Some("searxng"@) || provider == Some("brave"@) || provider
            == Some("ddg"@),
    ensures
        ({
            let s = searches(provider, url, key);
            &&& s.len() > 0
            &&& s.last() == SearchV::Ddg
            &&& forall|i: int| 0 <= i < s.len() - 1 ==> !(#[trigger] s[i] is Ddg)
            &&& url matches Some(u) ==> (s.contains(SearchV::Searxng(u)) <==> provider is None
                || provider == Some("searxng"@))
            &&& key matches Some(k) ==> (s.contains(SearchV::Brave(k)) <==> provider is None || provider
                == Some("brave"@))
        }),
{
    reveal_strlit("searxng");
    reveal_strlit("brave");
    reveal_strlit("ddg");
    assert("searxng"@.len() == 7 && "brave"@.len() == 5 && "ddg"@.len() == 3);
    let s = searches(provider, url, key);
    if let Some(u) = url {
        if provider is None || provider == Some("searxng"@) {
            assert(s[0] == SearchV::Searxng(u));
        }
    }
    if let Some(k) = key {
        if provider == Some("brave"@) {
            assert(s[0] == SearchV::Brave(k));
        } else if provider is None {
            assert(s[s.len() - 2] == SearchV::Brave(k));
        }
    }
}

/// A size that is given as a number is that number; what is missing or no number leaves the default.
pub proof fn law_size_is_read(n: u64, default: usize, s: Seq<char>)
    requires
        n <= usize::MAX,
    ensures
        size_or(Some(text::decimal(n as nat)), default) == n,
        size_or(None, default) == default,
        text::number(s) is Err ==> size_or(Some(s), default) == default,
{
    text::law_numeral_reads_back(n);
}

/// A provider is known by its name, whatever white space stands around it and in whatever case it is
/// written.
pub proof fn law_provider_by_name(s: Seq<char>)
    ensures
        provider_named(None) is None,
        text::is_blank(s) ==> provider_named(Some(s)) is None,
        !text::is_blank(s) ==> provider_named(Some(s)) == Some(text::lowered(text::trimmed(s))),
{
    text::law_trimmed_ends(s);
}

} // verus!
