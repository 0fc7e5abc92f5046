//! Proxying a remote MCP server: the catalog of its definitions, and the
//! names and URIs under which its components are exposed and forwarded.
use vstd::prelude::*;
use crate::mcp::McpError;
use crate::oauth::clone_strings;
use crate::router::{Prompt, Resource, ResourceTemplate, Tool};
use crate::text::{str_chars, string_from_chars, texts};

verus! {

broadcast use vstd::string::group_string_axioms;

/// The definitions a remote server offers, for applications to provide
/// (over an MCP client, or a stand-in in tests).
pub trait ProxyBackend {
    /// Lists the remote tools.
    fn list_tools(&mut self) -> Result<Vec<Tool>, McpError>;

    /// Lists the remote resources.
    fn list_resources(&mut self) -> Result<Vec<Resource>, McpError>;

    /// Lists the remote resource templates.
    fn list_resource_templates(&mut self) -> Result<Vec<ResourceTemplate>, McpError>;

    /// Lists the remote prompts.
    fn list_prompts(&mut self) -> Result<Vec<Prompt>, McpError>;
}

/// Catalog of remote definitions used to register proxy handlers.
#[derive(Debug, Clone, Default)]
pub struct ProxyCatalog {
    /// Remote tool definitions.
    pub tools: Vec<Tool>,
    /// Remote resource definitions.
    pub resources: Vec<Resource>,
    /// Remote resource templates.
    pub resource_templates: Vec<ResourceTemplate>,
    /// Remote prompt definitions.
    pub prompts: Vec<Prompt>,
}

/// Whether `r` is the catalog of the four listings, taken in order: the
/// first failed listing's error, else all four.
pub open spec fn catalog_outcome(
    tools: Result<Vec<Tool>, McpError>,
    resources: Result<Vec<Resource>, McpError>,
    templates: Result<Vec<ResourceTemplate>, McpError>,
    prompts: Result<Vec<Prompt>, McpError>,
    r: Result<ProxyCatalog, McpError>,
) -> bool {
    match (tools, resources, templates, prompts) {
        (Err(e), _, _, _) => r == Err::<ProxyCatalog, McpError>(e),
        (Ok(_), Err(e), _, _) => r == Err::<ProxyCatalog, McpError>(e),
        (Ok(_), Ok(_), Err(e), _) => r == Err::<ProxyCatalog, McpError>(e),
        (Ok(_), Ok(_), Ok(_), Err(e)) => r == Err::<ProxyCatalog, McpError>(e),
        (Ok(t), Ok(res), Ok(tm), Ok(p)) => r == Ok::<ProxyCatalog, McpError>(
            ProxyCatalog { tools: t, resources: res, resource_templates: tm, prompts: p },
        ),
    }
}

impl ProxyCatalog {
    /// The catalog of four listings: the first failed listing's error, else
    /// all four.
    pub fn from_listings(
        tools: Result<Vec<Tool>, McpError>,
        resources: Result<Vec<Resource>, McpError>,
        templates: Result<Vec<ResourceTemplate>, McpError>,
        prompts: Result<Vec<Prompt>, McpError>,
    ) -> (r: Result<ProxyCatalog, McpError>)
        ensures
            catalog_outcome(tools, resources, templates, prompts, r),
    {
        let t = match tools {
            Ok(t) => t,
            Err(e) => {
                return Err(e);
            },
        };
        let res = match resources {
            Ok(r) => r,
            Err(e) => {
                return Err(e);
            },
        };
        let tm = match templates {
            Ok(t) => t,
            Err(e) => {
                return Err(e);
            },
        };
        let p = match prompts {
            Ok(p) => p,
            Err(e) => {
                return Err(e);
            },
        };
        Ok(ProxyCatalog { tools: t, resources: res, resource_templates: tm, prompts: p })
    }

    /// Builds a catalog by querying a proxy backend: tools, resources,
    /// resource templates and prompts in that order, stopping at the first
    /// listing that fails with its error.
    pub fn from_backend<B: ProxyBackend + ?Sized>(backend: &mut B) -> (r: Result<ProxyCatalog, McpError>) {
        let tools = match backend.list_tools() {
            Ok(t) => t,
            Err(e) => {
                return Err(e);
            },
        };
        let resources = match backend.list_resources() {
            Ok(r) => r,
            Err(e) => {
                return Err(e);
            },
        };
        let templates = match backend.list_resource_templates() {
            Ok(t) => t,
            Err(e) => {
                return Err(e);
            },
        };
        let prompts = match backend.list_prompts() {
            Ok(p) => p,
            Err(e) => {
                return Err(e);
            },
        };
        Self::from_listings(Ok(tools), Ok(resources), Ok(templates), Ok(prompts))
    }
}

/// The name under which a remote component named `name` is exposed with
/// `prefix`: `prefix/name`.
pub open spec fn proxy_name(prefix: Seq<char>, name: Seq<char>) -> Seq<char> {
    prefix + "/"@ + name
}

/// The name `name` exposed under `prefix`.
pub fn prefixed_name(prefix: &str, name: &str) -> (r: String)
    ensures
        r@ == proxy_name(prefix@, name@),
{
    let mut r = prefix.to_string();
    r.append("/");
    r.append(name);
    r
}

/// The exposed definition of a remote tool: renamed to `prefix/name` where a
/// prefix is given; calls are forwarded under the tool's own name.
pub fn proxied_tool(tool: &Tool, prefix: Option<&str>) -> (r: (Tool, String))
    ensures
        r.0.name@ == match prefix {
            Some(p) => proxy_name(p@, tool.name@),
            None => tool.name@,
        },
        texts(r.0.tags@) == texts(tool.tags@),
        r.0.read_only == tool.read_only,
        r.1@ == tool.name@,
{
    let mut exposed = tool.duplicate();
    if let Some(p) = prefix {
        exposed.name = prefixed_name(p, tool.name.as_str());
    }
    (exposed, tool.name.clone())
}

/// The exposed definition of a remote prompt: renamed to `prefix/name`
/// where a prefix is given; requests are forwarded under its own name.
pub fn proxied_prompt(prompt: &Prompt, prefix: Option<&str>) -> (r: (Prompt, String))
    ensures
        r.0.name@ == match prefix {
            Some(p) => proxy_name(p@, prompt.name@),
            None => prompt.name@,
        },
        texts(r.0.tags@) == texts(prompt.tags@),
        r.1@ == prompt.name@,
{
    let mut exposed = prompt.duplicate();
    if let Some(p) = prefix {
        exposed.name = prefixed_name(p, prompt.name.as_str());
    }
    (exposed, prompt.name.clone())
}

/// The exposed definition of a remote resource: its URI prefixed as
/// `prefix/uri` where a prefix is given; reads are forwarded under its own
/// URI.
pub fn proxied_resource(resource: &Resource, prefix: Option<&str>) -> (r: (Resource, String))
    ensures
        r.0.uri@ == match prefix {
            Some(p) => proxy_name(p@, resource.uri@),
            None => resource.uri@,
        },
        texts(r.0.tags@) == texts(resource.tags@),
        r.1@ == resource.uri@,
{
    let mut exposed = resource.duplicate();
    if let Some(p) = prefix {
        exposed.uri = prefixed_name(p, resource.uri.as_str());
    }
    (exposed, resource.uri.clone())
}

/// The resource definition that stands for a resource template: its URI is
/// the URI template, and it has the template's tags.
pub fn resource_from_template(template: &ResourceTemplate) -> (r: Resource)
    ensures
        r.uri@ == template.uri_template@,
        texts(r.tags@) == texts(template.tags@),
{
    Resource { uri: template.uri_template.clone(), tags: clone_strings(&template.tags) }
}

/// The exposed form of a remote resource template: the template (its URI
/// template prefixed as `prefix/uri_template` where a prefix is given), the
/// resource definition that stands for it, and the URI template that reads
/// are forwarded under.
pub fn proxied_template(template: &ResourceTemplate, prefix: Option<&str>) -> (r: (ResourceTemplate, Resource, String))
    ensures
        r.0.uri_template@ == match prefix {
            Some(p) => proxy_name(p@, template.uri_template@),
            None => template.uri_template@,
        },
        r.0.name@ == template.name@,
        texts(r.0.tags@) == texts(template.tags@),
        r.1.uri@ == r.0.uri_template@,
        texts(r.1.tags@) == texts(template.tags@),
        r.2@ == template.uri_template@,
{
    let mut exposed = template.duplicate();
    if let Some(p) = prefix {
        exposed.uri_template = prefixed_name(p, template.uri_template.as_str());
    }
    let resource = resource_from_template(&exposed);
    (exposed, resource, template.uri_template.clone())
}

/// The first segment of `s`: its characters up to the first `/`, or all of
/// them where it has none.
pub open spec fn first_segment(s: Seq<char>) -> Seq<char>
    decreases s.len(),
{
    if s.len() == 0 {
        s
    } else if s[0] == '/' {
        Seq::empty()
    } else {
        seq![s[0]] + first_segment(s.drop_first())
    }
}

/// The URI to forward a read of `uri` under, for a resource exposed under
/// `exposed`: where `uri` starts with the first segment of `exposed` and a
/// `/`, what follows that `/`; else `uri` itself.
pub open spec fn forwarded_uri(exposed: Seq<char>, uri: Seq<char>) -> Seq<char> {
    let head = first_segment(exposed) + "/"@;
    if uri.len() >= head.len() && uri.take(head.len() as int) == head {
        uri.skip(head.len() as int)
    } else {
        uri
    }
}

/// The first segment has no `/` and is a prefix of the text, followed there
/// by a `/` or the end.
proof fn lemma_first_segment(s: Seq<char>)
    ensures
        first_segment(s).len() <= s.len(),
        s.take(first_segment(s).len() as int) == first_segment(s),
        first_segment(s).len() < s.len() ==> s[first_segment(s).len() as int] == '/',
        forall|i: int| 0 <= i < first_segment(s).len() ==> first_segment(s)[i] != '/',
    decreases s.len(),
{
    if s.len() > 0 && s[0] != '/' {
        let rest = s.drop_first();
        lemma_first_segment(rest);
        let f = first_segment(rest);
        assert(first_segment(s) == seq![s[0]] + f);
        assert(s.take((f.len() + 1) as int) =~= seq![s[0]] + rest.take(f.len() as int));
        assert forall|i: int| 0 <= i < first_segment(s).len() implies first_segment(s)[i] != '/' by {
            if i > 0 {
                assert(first_segment(s)[i] == f[i - 1]);
            }
        }
        if f.len() < rest.len() {
            assert(s[(f.len() + 1) as int] == rest[f.len() as int]);
        }
    } else if s.len() > 0 {
        assert(s.take(0) =~= Seq::<char>::empty());
    } else {
        assert(s.take(0) =~= s);
    }
}

/// The URI to forward a read of `uri` under, for a resource exposed under
/// `exposed` (its prefix, where it has one, stripped).
pub fn forward_uri(exposed: &str, uri: &str) -> (r: String)
    ensures
        r@ == forwarded_uri(exposed@, uri@),
{
    let e = str_chars(exposed);
    let u = str_chars(uri);
    proof {
        lemma_first_segment(e@);
    }
    let ghost head = first_segment(e@) + "/"@;
    let mut n: usize = 0;
    while n < e.len() && e[n] != '/'
        invariant
            e@ == exposed@,
            n <= e@.len(),
            n <= first_segment(e@).len(),
            forall|i: int| 0 <= i < n ==> e@[i] != '/',
            e@.take(first_segment(e@).len() as int) == first_segment(e@),
            first_segment(e@).len() <= e@.len(),
            first_segment(e@).len() < e@.len() ==> e@[first_segment(e@).len() as int] == '/',
            forall|i: int| 0 <= i < first_segment(e@).len() ==> first_segment(e@)[i] != '/',
        decreases e@.len() - n,
    {
        assert(e@[n as int] == first_segment(e@)[n as int]);
        n += 1;
    }
    proof {
        reveal_strlit("/");
        let fs = first_segment(e@);
        if n < fs.len() {
            assert(e@.take(fs.len() as int)[n as int] == e@[n as int]);
        }
    }
    assert(n == first_segment(e@).len());
    assert(head.len() == n + 1);
    // Does `uri` start with the first segment and a slash?
    let mut matches = n < u.len() && u[n] == '/';
    proof {
        let fs = first_segment(e@);
        if u@.len() > n && u@.take(n + 1) == fs + "/"@ {
            assert(u@.take(n + 1)[n as int] == u@[n as int]);
            assert((fs + "/"@)[n as int] == '/');
        }
    }
    let mut i: usize = 0;
    while matches && i < n
        invariant
            e@ == exposed@,
            u@ == uri@,
            n == first_segment(e@).len(),
            n <= e@.len(),
            e@.take(n as int) == first_segment(e@),
            i <= n,
            matches ==> n < u@.len() && u@[n as int] == '/' && forall|j: int| 0 <= j < i ==> u@[j] == e@[j],
            !matches ==> !(u@.len() > n && u@.take(n + 1) == first_segment(e@) + "/"@),
        decreases n - i,
    {
        if u[i] != e[i] {
            proof {
                if u@.len() > n && u@.take(n + 1) == first_segment(e@) + "/"@ {
                    assert(u@.take(n + 1)[i as int] == u@[i as int]);
                    assert((first_segment(e@) + "/"@)[i as int] == first_segment(e@)[i as int]);
                    assert(e@.take(n as int)[i as int] == e@[i as int]);
                }
            }
            matches = false;
        }
        i += 1;
    }
    if matches {
        assert(u@.take(n + 1) =~= first_segment(e@) + "/"@) by {
            assert forall|j: int| 0 <= j < n + 1 implies u@.take(n + 1)[j] == (first_segment(e@) + "/"@)[j] by {
                if j < n {
                    assert(e@.take(n as int)[j] == e@[j]);
                }
            }
        }
        let mut u = u;
        let rest = u.split_off(n + 1);
        string_from_chars(rest.as_slice())
    } else {
        uri.to_string()
    }
}

} // verus!

verus! {

/// The first segment of a text that starts with a prefix without `/`
/// followed by `/` is that prefix.
proof fn lemma_first_segment_of_prefixed(p: Seq<char>, rest: Seq<char>)
    requires
        forall|i: int| 0 <= i < p.len() ==> p[i] != '/',
    ensures
        first_segment(p + "/"@ + rest) == p,
    decreases p.len(),
{
    reveal_strlit("/");
    if p.len() == 0 {
        assert((p + "/"@ + rest)[0] == '/');
    } else {
        let s = p + "/"@ + rest;
        assert(s[0] == p[0]);
        assert(s.drop_first() =~= p.drop_first() + "/"@ + rest);
        lemma_first_segment_of_prefixed(p.drop_first(), rest);
        assert(seq![p[0]] + p.drop_first() =~= p);
    }
}

/// Reading a URI exposed under a prefix (one without `/`) of a resource
/// exposed under that prefix forwards the remote URI: forwarding undoes the
/// prefix.
pub proof fn law_forward_undoes_prefix(prefix: Seq<char>, remote_resource: Seq<char>, remote_uri: Seq<char>)
    requires
        forall|i: int| 0 <= i < prefix.len() ==> prefix[i] != '/',
    ensures
        forwarded_uri(proxy_name(prefix, remote_resource), proxy_name(prefix, remote_uri)) == remote_uri,
{
    reveal_strlit("/");
    lemma_first_segment_of_prefixed(prefix, remote_resource);
    let head = prefix + "/"@;
    let u = proxy_name(prefix, remote_uri);
    assert(u.take(head.len() as int) =~= head);
    assert(u.skip(head.len() as int) =~= remote_uri);
}

} // verus!
