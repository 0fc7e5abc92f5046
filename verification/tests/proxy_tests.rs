//! Tests of the proxy catalog and of the names and URIs under which remote
//! components are exposed and forwarded.
use fastmcp_server::mcp::{McpError, McpErrorCode};
use fastmcp_server::proxy::{
    forward_uri, prefixed_name, proxied_prompt, proxied_resource, proxied_template, proxied_tool,
    resource_from_template, ProxyBackend, ProxyCatalog,
};
use fastmcp_server::router::{Prompt, Resource, ResourceTemplate, Tool};

fn tool(name: &str) -> Tool {
    Tool { name: name.to_string(), tags: vec![], read_only: None }
}

fn resource(uri: &str) -> Resource {
    Resource { uri: uri.to_string(), tags: vec![] }
}

fn prompt(name: &str) -> Prompt {
    Prompt { name: name.to_string(), tags: vec![] }
}

fn template(uri_template: &str, name: &str) -> ResourceTemplate {
    ResourceTemplate { uri_template: uri_template.to_string(), name: name.to_string(), tags: vec![] }
}

#[derive(Clone, Default)]
struct TestBackend {
    tools: Vec<Tool>,
    resources: Vec<Resource>,
    templates: Vec<ResourceTemplate>,
    prompts: Vec<Prompt>,
}

impl ProxyBackend for TestBackend {
    fn list_tools(&mut self) -> Result<Vec<Tool>, McpError> {
        Ok(self.tools.clone())
    }
    fn list_resources(&mut self) -> Result<Vec<Resource>, McpError> {
        Ok(self.resources.clone())
    }
    fn list_resource_templates(&mut self) -> Result<Vec<ResourceTemplate>, McpError> {
        Ok(self.templates.clone())
    }
    fn list_prompts(&mut self) -> Result<Vec<Prompt>, McpError> {
        Ok(self.prompts.clone())
    }
}

/// A backend whose listings fail from the `fail_from`-th on (0: tools, 1:
/// resources, 2: templates, 3: prompts), counting the calls it gets.
struct FailingBackend {
    fail_from: usize,
    calls: usize,
}

impl FailingBackend {
    fn answer<T>(&mut self, which: usize, what: &str) -> Result<Vec<T>, McpError> {
        self.calls += 1;
        if which >= self.fail_from {
            Err(McpError::internal_error(format!("{} list failed", what)))
        } else {
            Ok(vec![])
        }
    }
}

impl ProxyBackend for FailingBackend {
    fn list_tools(&mut self) -> Result<Vec<Tool>, McpError> {
        self.answer(0, "tool")
    }
    fn list_resources(&mut self) -> Result<Vec<Resource>, McpError> {
        self.answer(1, "resource")
    }
    fn list_resource_templates(&mut self) -> Result<Vec<ResourceTemplate>, McpError> {
        self.answer(2, "template")
    }
    fn list_prompts(&mut self) -> Result<Vec<Prompt>, McpError> {
        self.answer(3, "prompt")
    }
}

#[test]
fn proxy_catalog_collects_definitions() {
    let mut backend = TestBackend {
        tools: vec![tool("tool")],
        resources: vec![resource("test://resource")],
        prompts: vec![prompt("prompt")],
        ..TestBackend::default()
    };
    let catalog = ProxyCatalog::from_backend(&mut backend).expect("catalog");
    assert_eq!(catalog.tools.len(), 1);
    assert_eq!(catalog.resources.len(), 1);
    assert_eq!(catalog.prompts.len(), 1);
}

#[test]
fn proxy_catalog_empty_backend() {
    let mut backend = TestBackend::default();
    let catalog = ProxyCatalog::from_backend(&mut backend).expect("catalog");
    assert!(catalog.tools.is_empty());
    assert!(catalog.resources.is_empty());
    assert!(catalog.resource_templates.is_empty());
    assert!(catalog.prompts.is_empty());
}

#[test]
fn proxy_catalog_default_is_empty() {
    let catalog = ProxyCatalog::default();
    assert!(catalog.tools.is_empty());
    assert!(catalog.resources.is_empty());
    assert!(catalog.resource_templates.is_empty());
    assert!(catalog.prompts.is_empty());
}

#[test]
fn proxy_catalog_multiple_items() {
    let mut backend = TestBackend {
        tools: vec![tool("t1"), tool("t2")],
        prompts: vec![prompt("p1"), prompt("p2")],
        ..TestBackend::default()
    };
    let catalog = ProxyCatalog::from_backend(&mut backend).expect("catalog");
    assert_eq!(catalog.tools.len(), 2);
    assert_eq!(catalog.prompts.len(), 2);
}

#[test]
fn proxy_catalog_collects_resource_templates() {
    let mut backend = TestBackend { templates: vec![template("tmpl://{id}", "Template")], ..TestBackend::default() };
    let catalog = ProxyCatalog::from_backend(&mut backend).expect("catalog");
    assert_eq!(catalog.resource_templates.len(), 1);
    assert_eq!(catalog.resource_templates[0].uri_template, "tmpl://{id}");
}

#[test]
fn proxy_catalog_propagates_tool_list_error() {
    let mut backend = FailingBackend { fail_from: 0, calls: 0 };
    let result = ProxyCatalog::from_backend(&mut backend);
    assert!(result.is_err());
    let err = result.unwrap_err();
    assert!(err.message.contains("tool list failed"));
}

#[test]
fn proxy_catalog_propagates_resource_list_error() {
    // The tool listing fails first, and its error is the one returned.
    let mut backend = FailingBackend { fail_from: 0, calls: 0 };
    let result = ProxyCatalog::from_backend(&mut backend);
    assert!(result.is_err());
    assert!(result.unwrap_err().message.contains("tool list failed"));
}

#[test]
fn proxy_catalog_propagates_resource_list_error_directly() {
    let mut backend = FailingBackend { fail_from: 1, calls: 0 };
    let result = ProxyCatalog::from_backend(&mut backend);
    assert!(result.is_err());
    assert!(result.unwrap_err().message.contains("resource list failed"));
    // The listings after the failed one are not asked for.
    assert_eq!(backend.calls, 2);
}

#[test]
fn proxy_catalog_propagates_template_list_error() {
    let mut backend = FailingBackend { fail_from: 2, calls: 0 };
    let result = ProxyCatalog::from_backend(&mut backend);
    assert!(result.is_err());
    assert!(result.unwrap_err().message.contains("template list failed"));
}

#[test]
fn proxy_catalog_propagates_prompt_list_error() {
    let mut backend = FailingBackend { fail_from: 3, calls: 0 };
    let result = ProxyCatalog::from_backend(&mut backend);
    assert!(result.is_err());
    let err = result.unwrap_err();
    assert!(err.message.contains("prompt list failed"));
    assert!(matches!(err.code, McpErrorCode::InternalError));
}

#[test]
fn proxy_catalog_debug() {
    let catalog = ProxyCatalog { tools: vec![tool("dbg-tool")], ..ProxyCatalog::default() };
    let debug = format!("{:?}", catalog);
    assert!(debug.contains("ProxyCatalog"));
    assert!(debug.contains("dbg-tool"));
}

#[test]
fn proxy_catalog_clone() {
    let catalog = ProxyCatalog { tools: vec![tool("cloned")], ..ProxyCatalog::default() };
    let cloned = catalog.clone();
    assert_eq!(cloned.tools.len(), 1);
    assert_eq!(cloned.tools[0].name, "cloned");
}

#[test]
fn from_listings_takes_first_error_in_order() {
    let r = ProxyCatalog::from_listings(
        Ok(vec![tool("t")]),
        Err(McpError::internal_error("resources down".to_string())),
        Err(McpError::internal_error("templates down".to_string())),
        Ok(vec![]),
    );
    assert_eq!(r.unwrap_err().message, "resources down");
    let r = ProxyCatalog::from_listings(Ok(vec![tool("t")]), Ok(vec![]), Ok(vec![]), Ok(vec![prompt("p")]));
    let c = r.unwrap();
    assert_eq!(c.tools[0].name, "t");
    assert_eq!(c.prompts[0].name, "p");
}

#[test]
fn prefixed_tool_handler_uses_correct_names() {
    let (exposed, external) = proxied_tool(&tool("query"), Some("db"));
    assert_eq!(exposed.name, "db/query");
    assert_eq!(external, "query"); // Original name, not prefixed
}

#[test]
fn prefixed_prompt_handler_uses_correct_names() {
    let (exposed, external) = proxied_prompt(&prompt("greeting"), Some("templates"));
    assert_eq!(exposed.name, "templates/greeting");
    assert_eq!(external, "greeting");
}

#[test]
fn prefixed_resource_handler_uses_correct_uri() {
    let (exposed, external) = proxied_resource(&resource("file://data"), Some("storage"));
    assert_eq!(exposed.uri, "storage/file://data");
    assert_eq!(external, "file://data");
}

#[test]
fn unprefixed_proxies_keep_names() {
    let (t, e) = proxied_tool(&tool("def-tool"), None);
    assert_eq!(t.name, "def-tool");
    assert_eq!(e, "def-tool");
    let (r, e) = proxied_resource(&resource("test://x"), None);
    assert_eq!(r.uri, "test://x");
    assert_eq!(e, "test://x");
}

#[test]
fn proxy_resource_handler_from_template_with_prefix() {
    let (tmpl, def, external) = proxied_template(&template("file://{path}", "File"), Some("storage"));
    assert_eq!(def.uri, "storage/file://{path}");
    assert_eq!(tmpl.uri_template, "storage/file://{path}");
    assert_eq!(tmpl.name, "File");
    assert_eq!(external, "file://{path}");
}

#[test]
fn resource_from_template_copies_uri_and_tags() {
    let mut t = template("db://{table}/{id}", "Database Record");
    t.tags = vec!["db".to_string()];
    let resource = resource_from_template(&t);
    assert_eq!(resource.uri, "db://{table}/{id}");
    assert_eq!(resource.tags, vec!["db".to_string()]);
}

#[test]
fn prefixed_name_joins_with_slash() {
    assert_eq!(prefixed_name("ns", "tool"), "ns/tool");
    assert_eq!(prefixed_name("", "tool"), "/tool");
}

#[test]
fn forward_uri_strips_prefix() {
    // URI with prefix gets the prefix stripped.
    assert_eq!(forward_uri("ext/file://data", "ext/file://data"), "file://data");
    assert_eq!(forward_uri("storage/file://{path}", "storage/file://a/b"), "file://a/b");
}

#[test]
fn forward_uri_no_prefix_match() {
    // URI without prefix match is used as-is.
    assert_eq!(forward_uri("test://r", "other://uri"), "other://uri");
}

#[test]
fn forward_uri_resource_uri_no_slash() {
    // A URI with no slash is its own first segment.
    assert_eq!(forward_uri("noslash", "noslash/rest"), "rest");
    assert_eq!(forward_uri("noslash", "noslash"), "noslash");
}

#[test]
fn forward_uri_unprefixed_scheme_quirk() {
    // The first segment of an unprefixed URI is its scheme and colon.
    assert_eq!(forward_uri("test://r", "test://r"), "/r");
}
