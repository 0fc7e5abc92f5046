//! Tests of the router's registry: adding, listing, filtering, resolving and
//! mounting tools, resources, resource templates and prompts.
use fastmcp_server::mcp::{McpError, McpErrorCode};
use fastmcp_server::router::{
    arguments_refusal, depth_refusal, resource_not_found, tool_reply, NestedRequest, ToolCallRefusal, ToolOutcome, ToolReply, ValidationIssue,
};
use fastmcp_server::router::{
    refusal_code, refusal_message, ComponentKind, Refusal, RequestState,
    DuplicateBehavior, ListParams, ListPromptsParams, ListResourceTemplatesParams, ListResourcesParams,
    ListToolsParams, MountResult, Prompt, PromptHandler, Resource, ResourceHandler, ResourceTemplate, Router,
    TagFilters, Tool, ToolHandler,
};
use fastmcp_server::store::StrSet;

// ── Stub handlers ──────────────────────────────────────────────────────

struct NamedTool {
    name: String,
    tags: Vec<String>,
}

impl NamedTool {
    fn new(name: &str) -> Self {
        Self { name: name.to_string(), tags: vec![] }
    }
    fn with_tags(name: &str, tags: Vec<String>) -> Self {
        Self { name: name.to_string(), tags }
    }
}

impl ToolHandler for NamedTool {
    fn definition(&self) -> Tool {
        Tool { name: self.name.clone(), tags: self.tags.clone(), read_only: None }
    }
}

/// A resource, optionally serving a URI template.
struct NamedResource {
    uri: String,
    tags: Vec<String>,
    template: Option<(String, String)>,
}

impl NamedResource {
    fn new(uri: &str) -> Self {
        Self { uri: uri.to_string(), tags: vec![], template: None }
    }
    fn with_tags(uri: &str, tags: Vec<String>) -> Self {
        Self { uri: uri.to_string(), tags, template: None }
    }
    fn templated(uri: &str, uri_template: &str, name: &str) -> Self {
        Self { uri: uri.to_string(), tags: vec![], template: Some((uri_template.to_string(), name.to_string())) }
    }
}

impl ResourceHandler for NamedResource {
    fn definition(&self) -> Resource {
        Resource { uri: self.uri.clone(), tags: self.tags.clone() }
    }
    fn template(&self) -> Option<ResourceTemplate> {
        self.template.as_ref().map(|(t, n)| template(t, n, vec![]))
    }
}

struct NamedPrompt {
    name: String,
    tags: Vec<String>,
}

impl NamedPrompt {
    fn new(name: &str) -> Self {
        Self { name: name.to_string(), tags: vec![] }
    }
    fn with_tags(name: &str, tags: Vec<String>) -> Self {
        Self { name: name.to_string(), tags }
    }
}

impl PromptHandler for NamedPrompt {
    fn definition(&self) -> Prompt {
        Prompt { name: self.name.clone(), tags: self.tags.clone() }
    }
}

type TestRouter = Router<NamedTool, NamedResource, NamedPrompt>;

fn template(uri_template: &str, name: &str, tags: Vec<String>) -> ResourceTemplate {
    ResourceTemplate { uri_template: uri_template.to_string(), name: name.to_string(), tags }
}

fn disabled(names: &[&str]) -> StrSet {
    let mut s = StrSet::new();
    for n in names {
        s.insert(n.to_string());
    }
    s
}

fn no_params() -> ListParams {
    ListParams { cursor: None, include_tags: None, exclude_tags: None }
}

// ── Router::new ────────────────────────────────────────────────────────

#[test]
fn new_router_is_empty() {
    let r = TestRouter::new();
    assert_eq!(r.tools_count(), 0);
    assert_eq!(r.resources_count(), 0);
    assert_eq!(r.resource_templates_count(), 0);
    assert_eq!(r.prompts_count(), 0);
    assert!(r.tools().is_empty());
    assert!(r.resources().is_empty());
    assert!(r.resource_templates().is_empty());
    assert!(r.prompts().is_empty());
}

#[test]
fn default_router_is_empty() {
    let r = TestRouter::default();
    assert_eq!(r.tools_count(), 0);
}

// ── add_tool / get_tool ────────────────────────────────────────────────

#[test]
fn add_and_get_tool() {
    let mut r = TestRouter::new();
    r.add_tool(NamedTool::new("my_tool"));
    assert_eq!(r.tools_count(), 1);
    assert!(r.get_tool("my_tool").is_some());
    assert!(r.get_tool("other").is_none());
}

#[test]
fn add_tool_replace_on_duplicate() {
    let mut r = TestRouter::new();
    r.add_tool(NamedTool::new("t"));
    r.add_tool(NamedTool::new("t"));
    assert_eq!(r.tools_count(), 1);
    // Order preserved (only one entry)
    assert_eq!(r.tools().len(), 1);
}

#[test]
fn tools_returns_definitions_in_order() {
    let mut r = TestRouter::new();
    r.add_tool(NamedTool::new("b"));
    r.add_tool(NamedTool::new("a"));
    let names: Vec<_> = r.tools().iter().map(|t| t.name.clone()).collect();
    assert_eq!(names, vec!["b", "a"]); // insertion order
}

// ── add_tool_with_behavior ─────────────────────────────────────────────

#[test]
fn add_tool_behavior_error_on_duplicate() {
    let mut r = TestRouter::new();
    r.add_tool(NamedTool::new("t"));
    let err = r.add_tool_with_behavior(NamedTool::new("t"), DuplicateBehavior::Error).unwrap_err();
    assert!(err.message.contains("already exists"));
}

#[test]
fn add_tool_behavior_warn_keeps_original() {
    let mut r = TestRouter::new();
    r.add_tool(NamedTool::new("t"));
    r.add_tool_with_behavior(NamedTool::new("t"), DuplicateBehavior::Warn).unwrap();
    assert_eq!(r.tools_count(), 1);
}

#[test]
fn add_tool_behavior_replace() {
    let mut r = TestRouter::new();
    r.add_tool(NamedTool::new("t"));
    r.add_tool_with_behavior(NamedTool::new("t"), DuplicateBehavior::Replace).unwrap();
    assert_eq!(r.tools_count(), 1);
}

#[test]
fn add_tool_behavior_ignore() {
    let mut r = TestRouter::new();
    r.add_tool(NamedTool::new("t"));
    r.add_tool_with_behavior(NamedTool::new("t"), DuplicateBehavior::Ignore).unwrap();
    assert_eq!(r.tools_count(), 1);
}

#[test]
fn add_tool_behavior_new_tool_ok() {
    let mut r = TestRouter::new();
    r.add_tool_with_behavior(NamedTool::new("t"), DuplicateBehavior::Error).unwrap();
    assert_eq!(r.tools_count(), 1);
}

// ── add_resource / get_resource ────────────────────────────────────────

#[test]
fn add_and_get_resource() {
    let mut r = TestRouter::new();
    r.add_resource(NamedResource::new("file:///a.txt"));
    assert_eq!(r.resources_count(), 1);
    assert!(r.get_resource("file:///a.txt").is_some());
    assert!(r.get_resource("file:///b.txt").is_none());
}

#[test]
fn resources_returns_definitions_in_order() {
    let mut r = TestRouter::new();
    r.add_resource(NamedResource::new("file:///b"));
    r.add_resource(NamedResource::new("file:///a"));
    let uris: Vec<_> = r.resources().iter().map(|res| res.uri.clone()).collect();
    assert_eq!(uris, vec!["file:///b", "file:///a"]);
}

// ── add_resource_with_behavior ─────────────────────────────────────────

#[test]
fn add_resource_behavior_error_on_duplicate() {
    let mut r = TestRouter::new();
    r.add_resource(NamedResource::new("file:///a"));
    let err = r
        .add_resource_with_behavior(NamedResource::new("file:///a"), DuplicateBehavior::Error)
        .unwrap_err();
    assert!(err.message.contains("already exists"));
}

#[test]
fn add_resource_behavior_ignore() {
    let mut r = TestRouter::new();
    r.add_resource(NamedResource::new("file:///a"));
    r.add_resource_with_behavior(NamedResource::new("file:///a"), DuplicateBehavior::Ignore).unwrap();
    assert_eq!(r.resources_count(), 1);
}

#[test]
fn add_resource_behavior_warn_keeps_original() {
    let mut r = TestRouter::new();
    r.add_resource(NamedResource::new("file:///a"));
    r.add_resource_with_behavior(NamedResource::new("file:///a"), DuplicateBehavior::Warn).unwrap();
    assert_eq!(r.resources_count(), 1);
}

#[test]
fn add_resource_behavior_replace() {
    let mut r = TestRouter::new();
    r.add_resource(NamedResource::new("file:///a"));
    r.add_resource_with_behavior(NamedResource::new("file:///a"), DuplicateBehavior::Replace).unwrap();
    assert_eq!(r.resources_count(), 1);
}

#[test]
fn add_resource_behavior_new_resource_ok() {
    let mut r = TestRouter::new();
    r.add_resource_with_behavior(NamedResource::new("file:///a"), DuplicateBehavior::Error).unwrap();
    assert_eq!(r.resources_count(), 1);
}

#[test]
fn add_resource_replaces_on_duplicate() {
    let mut r = TestRouter::new();
    r.add_resource(NamedResource::new("file:///a"));
    r.add_resource(NamedResource::new("file:///a"));
    assert_eq!(r.resources_count(), 1);
    assert_eq!(r.resources().len(), 1);
}

#[test]
fn add_resource_with_behavior_template_error_on_duplicate() {
    let mut r = TestRouter::new();
    r.add_resource(NamedResource::templated("db://placeholder", "db://{table}", "db"));
    let err = r
        .add_resource_with_behavior(
            NamedResource::templated("db://placeholder", "db://{table}", "db"),
            DuplicateBehavior::Error,
        )
        .unwrap_err();
    assert!(err.message.contains("already exists"));
}

#[test]
fn add_resource_with_behavior_template_ignore_on_duplicate() {
    let mut r = TestRouter::new();
    r.add_resource(NamedResource::templated("cache://placeholder", "cache://{key}", "cache"));
    r.add_resource_with_behavior(
        NamedResource::templated("cache://placeholder", "cache://{key}", "cache"),
        DuplicateBehavior::Ignore,
    )
    .unwrap();
    assert_eq!(r.resource_templates_count(), 1);
}

#[test]
fn add_resource_with_behavior_template_warn_on_duplicate() {
    let mut r = TestRouter::new();
    r.add_resource(NamedResource::templated("log://placeholder", "log://{entry}", "log"));
    r.add_resource_with_behavior(
        NamedResource::templated("log://placeholder", "log://{entry}", "log"),
        DuplicateBehavior::Warn,
    )
    .unwrap();
    assert_eq!(r.resource_templates_count(), 1);
}

// ── add_prompt / get_prompt ────────────────────────────────────────────

#[test]
fn add_and_get_prompt() {
    let mut r = TestRouter::new();
    r.add_prompt(NamedPrompt::new("greet"));
    assert_eq!(r.prompts_count(), 1);
    assert!(r.get_prompt("greet").is_some());
    assert!(r.get_prompt("other").is_none());
}

#[test]
fn prompts_returns_definitions_in_order() {
    let mut r = TestRouter::new();
    r.add_prompt(NamedPrompt::new("z"));
    r.add_prompt(NamedPrompt::new("a"));
    let names: Vec<_> = r.prompts().iter().map(|p| p.name.clone()).collect();
    assert_eq!(names, vec!["z", "a"]);
}

#[test]
fn add_prompt_behavior_error_on_duplicate() {
    let mut r = TestRouter::new();
    r.add_prompt(NamedPrompt::new("p"));
    let err = r.add_prompt_with_behavior(NamedPrompt::new("p"), DuplicateBehavior::Error).unwrap_err();
    assert!(err.message.contains("already exists"));
}

#[test]
fn add_prompt_behavior_warn_keeps_original() {
    let mut r = TestRouter::new();
    r.add_prompt(NamedPrompt::new("p"));
    r.add_prompt_with_behavior(NamedPrompt::new("p"), DuplicateBehavior::Warn).unwrap();
    assert_eq!(r.prompts_count(), 1);
}

#[test]
fn add_prompt_behavior_replace() {
    let mut r = TestRouter::new();
    r.add_prompt(NamedPrompt::new("p"));
    r.add_prompt_with_behavior(NamedPrompt::new("p"), DuplicateBehavior::Replace).unwrap();
    assert_eq!(r.prompts_count(), 1);
}

#[test]
fn add_prompt_behavior_ignore() {
    let mut r = TestRouter::new();
    r.add_prompt(NamedPrompt::new("p"));
    r.add_prompt_with_behavior(NamedPrompt::new("p"), DuplicateBehavior::Ignore).unwrap();
    assert_eq!(r.prompts_count(), 1);
}

#[test]
fn add_prompt_behavior_new_prompt_ok() {
    let mut r = TestRouter::new();
    r.add_prompt_with_behavior(NamedPrompt::new("p"), DuplicateBehavior::Error).unwrap();
    assert_eq!(r.prompts_count(), 1);
}

#[test]
fn add_prompt_replaces_on_duplicate() {
    let mut r = TestRouter::new();
    r.add_prompt(NamedPrompt::new("p"));
    r.add_prompt(NamedPrompt::new("p"));
    assert_eq!(r.prompts_count(), 1);
    assert_eq!(r.prompts().len(), 1);
}

// ── add_resource_template ──────────────────────────────────────────────

#[test]
fn add_resource_template_and_list() {
    let mut r = TestRouter::new();
    r.add_resource_template(template("db://{table}", "db", vec![]));
    assert_eq!(r.resource_templates_count(), 1);
    assert!(r.get_resource_template("db://{table}").is_some());
    assert!(r.get_resource_template("db://{other}").is_none());
}

#[test]
fn add_resource_template_replaces_existing() {
    let mut r = TestRouter::new();
    r.add_resource_template(template("db://{table}", "db1", vec![]));
    r.add_resource_template(template("db://{table}", "db2", vec![]));
    assert_eq!(r.resource_templates_count(), 1);
    let tmpl = r.get_resource_template("db://{table}").unwrap();
    assert_eq!(tmpl.name, "db2");
}

// ── resource_exists / resolve_resource ─────────────────────────────────

#[test]
fn resource_exists_for_static_resource() {
    let mut r = TestRouter::new();
    r.add_resource(NamedResource::new("file:///a.txt"));
    assert!(r.resource_exists("file:///a.txt"));
    assert!(!r.resource_exists("file:///b.txt"));
}

#[test]
fn resource_exists_for_template_match() {
    let mut r = TestRouter::new();
    r.add_resource(NamedResource::templated("db://placeholder", "db://{table}", "db"));
    assert!(r.resource_exists("db://users"));
    assert!(!r.resource_exists("file://other"));
}

#[test]
fn template_without_handler_serves_nothing() {
    let mut r = TestRouter::new();
    r.add_resource_template(template("db://{table}", "db", vec![]));
    assert!(!r.resource_exists("db://users"));
    assert!(r.resolve_resource("db://users").is_none());
}

#[test]
fn resolve_prefers_static_resource() {
    let mut r = TestRouter::new();
    r.add_resource(NamedResource::templated("db://placeholder", "db://{table}", "db"));
    r.add_resource(NamedResource::new("db://users"));
    let (handler, params) = r.resolve_resource("db://users").expect("resolved");
    assert_eq!(handler.uri, "db://users");
    assert_eq!(params.len(), 0);
}

#[test]
fn resolve_prefers_most_specific_template() {
    let mut r = TestRouter::new();
    r.add_resource(NamedResource::templated("generic", "db://{rest}", "generic"));
    r.add_resource(NamedResource::templated("users", "db://users/{id}", "users"));
    let (handler, params) = r.resolve_resource("db://users/42").expect("resolved");
    assert_eq!(handler.uri, "users");
    assert_eq!(params.get("id").map(String::as_str), Some("42"));
    let (handler, params) = r.resolve_resource("db://orders").expect("resolved");
    assert_eq!(handler.uri, "generic");
    assert_eq!(params.get("rest").map(String::as_str), Some("orders"));
}

#[test]
fn resolve_breaks_ties_by_template_text() {
    let mut r = TestRouter::new();
    r.add_resource(NamedResource::templated("second", "x://{b}", "b"));
    r.add_resource(NamedResource::templated("first", "x://{a}", "a"));
    let (handler, params) = r.resolve_resource("x://v").expect("resolved");
    assert_eq!(handler.uri, "first");
    assert_eq!(params.get("a").map(String::as_str), Some("v"));
}

// ── strict_input_validation ────────────────────────────────────────────

#[test]
fn strict_input_validation_default_off() {
    let r = TestRouter::new();
    assert!(!r.strict_input_validation());
}

#[test]
fn set_strict_input_validation() {
    let mut r = TestRouter::new();
    r.set_strict_input_validation(true);
    assert!(r.strict_input_validation());
    r.set_strict_input_validation(false);
    assert!(!r.strict_input_validation());
}

#[test]
fn strict_input_validation_toggle() {
    let mut r = TestRouter::new();
    assert!(!r.strict_input_validation());
    r.set_strict_input_validation(true);
    assert!(r.strict_input_validation());
    r.set_strict_input_validation(false);
    assert!(!r.strict_input_validation());
}

// ── set_list_page_size ─────────────────────────────────────────────────

#[test]
fn set_list_page_size_zero_treated_as_none() {
    let mut r = TestRouter::new();
    r.set_list_page_size(Some(0));
    // Zero page size is filtered to None
    assert!(r.list_page_size().is_none());
}

#[test]
fn set_list_page_size_positive() {
    let mut r = TestRouter::new();
    r.set_list_page_size(Some(10));
    assert_eq!(r.list_page_size(), Some(10));
}

#[test]
fn set_list_page_size_none() {
    let mut r = TestRouter::new();
    r.set_list_page_size(Some(10));
    r.set_list_page_size(None);
    assert!(r.list_page_size().is_none());
}

#[test]
fn set_list_page_size_zero_disables_pagination() {
    let mut r = TestRouter::new();
    r.set_list_page_size(Some(0));
    r.add_tool(NamedTool::new("a"));
    r.add_tool(NamedTool::new("b"));
    let params = ListToolsParams { cursor: None, include_tags: None, exclude_tags: None };
    let result = r.handle_tools_list(params, None).unwrap();
    // With page_size = 0, all items returned (no pagination)
    assert_eq!(result.tools.len(), 2);
    assert!(result.next_cursor.is_none());
}

#[test]
fn invalid_cursor_returns_error() {
    let mut r = TestRouter::new();
    r.set_list_page_size(Some(1));
    r.add_tool(NamedTool::new("a"));
    let params = ListToolsParams {
        cursor: Some("not-valid-base64!!!".to_string()),
        include_tags: None,
        exclude_tags: None,
    };
    let err = r.handle_tools_list(params, None).unwrap_err();
    assert!(err.message.contains("cursor") || err.message.contains("Invalid"));
    assert!(matches!(err.code, McpErrorCode::InvalidParams));
}

// ── filtered listings ──────────────────────────────────────────────────

#[test]
fn tools_filtered_no_filters_returns_all() {
    let mut r = TestRouter::new();
    r.add_tool(NamedTool::new("a"));
    r.add_tool(NamedTool::new("b"));
    let tools = r.tools_filtered(None, None);
    assert_eq!(tools.len(), 2);
}

#[test]
fn tools_filtered_by_session_state_disables() {
    let mut r = TestRouter::new();
    r.add_tool(NamedTool::new("a"));
    r.add_tool(NamedTool::new("b"));
    let state = disabled(&["a"]);
    let tools = r.tools_filtered(Some(&state), None);
    assert_eq!(tools.len(), 1);
    assert_eq!(tools[0].name, "b");
}

#[test]
fn tools_filtered_by_tags() {
    let mut r = TestRouter::new();
    r.add_tool(NamedTool::with_tags("a", vec!["db".to_string()]));
    r.add_tool(NamedTool::with_tags("b", vec!["web".to_string()]));
    let wanted = vec!["db".to_string()];
    let filters = TagFilters::new(Some(&wanted), None);
    let tools = r.tools_filtered(None, Some(&filters));
    assert_eq!(tools.len(), 1);
    assert_eq!(tools[0].name, "a");
}

#[test]
fn resources_filtered_by_session_state() {
    let mut r = TestRouter::new();
    r.add_resource(NamedResource::new("file:///a"));
    r.add_resource(NamedResource::new("file:///b"));
    let state = disabled(&["file:///a"]);
    let res = r.resources_filtered(Some(&state), None);
    assert_eq!(res.len(), 1);
    assert_eq!(res[0].uri, "file:///b");
}

#[test]
fn resources_filtered_by_tags() {
    let mut r = TestRouter::new();
    r.add_resource(NamedResource::with_tags("file:///a", vec!["internal".to_string()]));
    r.add_resource(NamedResource::with_tags("file:///b", vec!["public".to_string()]));
    let wanted = vec!["public".to_string()];
    let filters = TagFilters::new(Some(&wanted), None);
    let res = r.resources_filtered(None, Some(&filters));
    assert_eq!(res.len(), 1);
    assert_eq!(res[0].uri, "file:///b");
}

#[test]
fn prompts_filtered_by_session_state() {
    let mut r = TestRouter::new();
    r.add_prompt(NamedPrompt::new("a"));
    r.add_prompt(NamedPrompt::new("b"));
    let state = disabled(&["a"]);
    let prompts = r.prompts_filtered(Some(&state), None);
    assert_eq!(prompts.len(), 1);
    assert_eq!(prompts[0].name, "b");
}

#[test]
fn prompts_filtered_by_tags() {
    let mut r = TestRouter::new();
    r.add_prompt(NamedPrompt::with_tags("a", vec!["internal".to_string()]));
    r.add_prompt(NamedPrompt::with_tags("b", vec!["public".to_string()]));
    let unwanted = vec!["internal".to_string()];
    let filters = TagFilters::new(None, Some(&unwanted));
    let prompts = r.prompts_filtered(None, Some(&filters));
    assert_eq!(prompts.len(), 1);
    assert_eq!(prompts[0].name, "b");
}

#[test]
fn resource_templates_filtered_by_session_state() {
    let mut r = TestRouter::new();
    r.add_resource_template(template("db://{table}", "db", vec!["admin".to_string()]));
    r.add_resource_template(template("cache://{key}", "cache", vec![]));
    let state = disabled(&["db://{table}"]);
    let tmpls = r.resource_templates_filtered(Some(&state), None);
    assert_eq!(tmpls.len(), 1);
    assert_eq!(tmpls[0].name, "cache");
}

#[test]
fn resource_templates_filtered_by_tags() {
    let mut r = TestRouter::new();
    r.add_resource_template(template("db://{table}", "db", vec!["admin".to_string()]));
    r.add_resource_template(template("cache://{key}", "cache", vec!["public".to_string()]));
    let unwanted = vec!["admin".to_string()];
    let filters = TagFilters::new(None, Some(&unwanted));
    let tmpls = r.resource_templates_filtered(None, Some(&filters));
    assert_eq!(tmpls.len(), 1);
    assert_eq!(tmpls[0].name, "cache");
}

#[test]
fn resource_templates_filtered_session_and_tags_combined() {
    let mut r = TestRouter::new();
    r.add_resource_template(template("db://{table}", "db", vec!["admin".to_string()]));
    r.add_resource_template(template("cache://{key}", "cache", vec!["admin".to_string()]));
    r.add_resource_template(template("log://{entry}", "log", vec!["public".to_string()]));
    // Disable db template via session state
    let state = disabled(&["db://{table}"]);
    // Also filter by admin tag
    let wanted = vec!["admin".to_string()];
    let filters = TagFilters::new(Some(&wanted), None);
    let tmpls = r.resource_templates_filtered(Some(&state), Some(&filters));
    // db is disabled, log doesn't have admin tag => only cache
    assert_eq!(tmpls.len(), 1);
    assert_eq!(tmpls[0].name, "cache");
}

// ── list requests ──────────────────────────────────────────────────────

#[test]
fn handle_tools_list_no_pagination() {
    let mut r = TestRouter::new();
    r.add_tool(NamedTool::new("a"));
    r.add_tool(NamedTool::new("b"));
    let params = ListToolsParams { cursor: None, include_tags: None, exclude_tags: None };
    let result = r.handle_tools_list(params, None).unwrap();
    assert_eq!(result.tools.len(), 2);
    assert!(result.next_cursor.is_none());
}

#[test]
fn handle_tools_list_with_pagination() {
    let mut r = TestRouter::new();
    r.set_list_page_size(Some(1));
    r.add_tool(NamedTool::new("a"));
    r.add_tool(NamedTool::new("b"));

    // First page
    let params = ListToolsParams { cursor: None, include_tags: None, exclude_tags: None };
    let result = r.handle_tools_list(params, None).unwrap();
    assert_eq!(result.tools.len(), 1);
    assert_eq!(result.tools[0].name, "a");
    assert!(result.next_cursor.is_some());

    // Second page
    let params = ListToolsParams { cursor: result.next_cursor, include_tags: None, exclude_tags: None };
    let result = r.handle_tools_list(params, None).unwrap();
    assert_eq!(result.tools.len(), 1);
    assert_eq!(result.tools[0].name, "b");
    assert!(result.next_cursor.is_none());
}

#[test]
fn handle_tools_list_with_tag_filter() {
    let mut r = TestRouter::new();
    r.add_tool(NamedTool::with_tags("a", vec!["db".to_string()]));
    r.add_tool(NamedTool::with_tags("b", vec!["web".to_string()]));
    let params = ListToolsParams { cursor: None, include_tags: Some(vec!["db".to_string()]), exclude_tags: None };
    let result = r.handle_tools_list(params, None).unwrap();
    assert_eq!(result.tools.len(), 1);
    assert_eq!(result.tools[0].name, "a");
}

#[test]
fn handle_tools_list_with_session_state_filter() {
    let mut r = TestRouter::new();
    r.add_tool(NamedTool::new("a"));
    r.add_tool(NamedTool::new("b"));
    let state = disabled(&["a"]);
    let params = ListToolsParams { cursor: None, include_tags: None, exclude_tags: None };
    let result = r.handle_tools_list(params, Some(&state)).unwrap();
    assert_eq!(result.tools.len(), 1);
    assert_eq!(result.tools[0].name, "b");
}

#[test]
fn handle_tools_list_pagination_with_tags() {
    let mut r = TestRouter::new();
    r.set_list_page_size(Some(1));
    r.add_tool(NamedTool::with_tags("a", vec!["db".to_string()]));
    r.add_tool(NamedTool::with_tags("b", vec!["db".to_string()]));
    r.add_tool(NamedTool::with_tags("c", vec!["web".to_string()]));

    // Only "db" tagged tools, page 1
    let params = ListToolsParams { cursor: None, include_tags: Some(vec!["db".to_string()]), exclude_tags: None };
    let result = r.handle_tools_list(params, None).unwrap();
    assert_eq!(result.tools.len(), 1);
    assert_eq!(result.tools[0].name, "a");
    assert!(result.next_cursor.is_some());

    // Page 2
    let params = ListToolsParams {
        cursor: result.next_cursor,
        include_tags: Some(vec!["db".to_string()]),
        exclude_tags: None,
    };
    let result = r.handle_tools_list(params, None).unwrap();
    assert_eq!(result.tools.len(), 1);
    assert_eq!(result.tools[0].name, "b");
    assert!(result.next_cursor.is_none());
}

#[test]
fn handle_resources_list_no_pagination() {
    let mut r = TestRouter::new();
    r.add_resource(NamedResource::new("file:///a"));
    let params = ListResourcesParams { cursor: None, include_tags: None, exclude_tags: None };
    let result = r.handle_resources_list(params, None).unwrap();
    assert_eq!(result.resources.len(), 1);
    assert!(result.next_cursor.is_none());
}

#[test]
fn handle_resources_list_with_pagination() {
    let mut r = TestRouter::new();
    r.set_list_page_size(Some(1));
    r.add_resource(NamedResource::new("file:///a"));
    r.add_resource(NamedResource::new("file:///b"));
    let params = ListResourcesParams { cursor: None, include_tags: None, exclude_tags: None };
    let result = r.handle_resources_list(params, None).unwrap();
    assert_eq!(result.resources.len(), 1);
    assert!(result.next_cursor.is_some());
}

#[test]
fn handle_resources_list_with_tag_filter() {
    let mut r = TestRouter::new();
    r.add_resource(NamedResource::with_tags("file:///a", vec!["db".to_string()]));
    r.add_resource(NamedResource::with_tags("file:///b", vec!["web".to_string()]));
    let params =
        ListResourcesParams { cursor: None, include_tags: Some(vec!["web".to_string()]), exclude_tags: None };
    let result = r.handle_resources_list(params, None).unwrap();
    assert_eq!(result.resources.len(), 1);
    assert_eq!(result.resources[0].uri, "file:///b");
}

#[test]
fn handle_resources_list_with_session_state_filter() {
    let mut r = TestRouter::new();
    r.add_resource(NamedResource::new("file:///a"));
    r.add_resource(NamedResource::new("file:///b"));
    let state = disabled(&["file:///a"]);
    let params = ListResourcesParams { cursor: None, include_tags: None, exclude_tags: None };
    let result = r.handle_resources_list(params, Some(&state)).unwrap();
    assert_eq!(result.resources.len(), 1);
    assert_eq!(result.resources[0].uri, "file:///b");
}

#[test]
fn handle_prompts_list_no_pagination() {
    let mut r = TestRouter::new();
    r.add_prompt(NamedPrompt::new("greet"));
    let params = ListPromptsParams { cursor: None, include_tags: None, exclude_tags: None };
    let result = r.handle_prompts_list(params, None).unwrap();
    assert_eq!(result.prompts.len(), 1);
    assert!(result.next_cursor.is_none());
}

#[test]
fn handle_prompts_list_with_pagination() {
    let mut r = TestRouter::new();
    r.set_list_page_size(Some(1));
    r.add_prompt(NamedPrompt::new("a"));
    r.add_prompt(NamedPrompt::new("b"));
    let params = ListPromptsParams { cursor: None, include_tags: None, exclude_tags: None };
    let result = r.handle_prompts_list(params, None).unwrap();
    assert_eq!(result.prompts.len(), 1);
    assert_eq!(result.prompts[0].name, "a");
    assert!(result.next_cursor.is_some());

    let params = ListPromptsParams { cursor: result.next_cursor, include_tags: None, exclude_tags: None };
    let result = r.handle_prompts_list(params, None).unwrap();
    assert_eq!(result.prompts.len(), 1);
    assert_eq!(result.prompts[0].name, "b");
    assert!(result.next_cursor.is_none());
}

#[test]
fn handle_prompts_list_with_tag_filter() {
    let mut r = TestRouter::new();
    r.add_prompt(NamedPrompt::with_tags("a", vec!["internal".to_string()]));
    r.add_prompt(NamedPrompt::with_tags("b", vec!["public".to_string()]));
    let params =
        ListPromptsParams { cursor: None, include_tags: None, exclude_tags: Some(vec!["internal".to_string()]) };
    let result = r.handle_prompts_list(params, None).unwrap();
    assert_eq!(result.prompts.len(), 1);
    assert_eq!(result.prompts[0].name, "b");
}

#[test]
fn handle_prompts_list_with_session_state_filter() {
    let mut r = TestRouter::new();
    r.add_prompt(NamedPrompt::new("a"));
    r.add_prompt(NamedPrompt::new("b"));
    let state = disabled(&["a"]);
    let params = ListPromptsParams { cursor: None, include_tags: None, exclude_tags: None };
    let result = r.handle_prompts_list(params, Some(&state)).unwrap();
    assert_eq!(result.prompts.len(), 1);
    assert_eq!(result.prompts[0].name, "b");
}

#[test]
fn handle_resource_templates_list_no_pagination() {
    let mut r = TestRouter::new();
    r.add_resource_template(template("db://{table}", "db", vec![]));
    let params = ListResourceTemplatesParams { cursor: None, include_tags: None, exclude_tags: None };
    let result = r.handle_resource_templates_list(params, None).unwrap();
    assert_eq!(result.resource_templates.len(), 1);
    assert!(result.next_cursor.is_none());
}

#[test]
fn handle_resource_templates_list_with_pagination() {
    let mut r = TestRouter::new();
    r.set_list_page_size(Some(1));
    r.add_resource_template(template("db://{table}", "db", vec![]));
    r.add_resource_template(template("cache://{key}", "cache", vec![]));
    let params = ListResourceTemplatesParams { cursor: None, include_tags: None, exclude_tags: None };
    let result = r.handle_resource_templates_list(params, None).unwrap();
    assert_eq!(result.resource_templates.len(), 1);
    assert!(result.next_cursor.is_some());

    let params = ListResourceTemplatesParams { cursor: result.next_cursor, include_tags: None, exclude_tags: None };
    let result = r.handle_resource_templates_list(params, None).unwrap();
    assert_eq!(result.resource_templates.len(), 1);
    assert!(result.next_cursor.is_none());
}

#[test]
fn handle_resource_templates_list_with_tag_filter() {
    let mut r = TestRouter::new();
    r.add_resource_template(template("db://{table}", "db", vec!["admin".to_string()]));
    r.add_resource_template(template("cache://{key}", "cache", vec!["public".to_string()]));
    let params = ListResourceTemplatesParams {
        cursor: None,
        include_tags: Some(vec!["public".to_string()]),
        exclude_tags: None,
    };
    let result = r.handle_resource_templates_list(params, None).unwrap();
    assert_eq!(result.resource_templates.len(), 1);
    assert_eq!(result.resource_templates[0].name, "cache");
}

#[test]
fn list_page_past_the_end_is_empty() {
    let mut r = TestRouter::new();
    r.set_list_page_size(Some(2));
    r.add_tool(NamedTool::new("a"));
    let cursor = fastmcp_server::router::encode_cursor_offset(5);
    let params = ListToolsParams { cursor: Some(cursor), ..no_params() };
    let result = r.handle_tools_list(params, None).unwrap();
    assert!(result.tools.is_empty());
    assert!(result.next_cursor.is_none());
}

// ── mount ──────────────────────────────────────────────────────────────

#[test]
fn mount_tools_with_prefix() {
    let mut main = TestRouter::new();
    let mut sub = TestRouter::new();
    sub.add_tool(NamedTool::new("query"));
    let result = main.mount(sub, Some("db"));
    assert_eq!(result.tools, 1);
    assert!(main.get_tool("db/query").is_some());
    assert!(main.get_tool("query").is_none());
    // The mounted definition carries its new name.
    assert_eq!(main.tools()[0].name, "db/query");
}

#[test]
fn mount_without_prefix() {
    let mut main = TestRouter::new();
    let mut sub = TestRouter::new();
    sub.add_tool(NamedTool::new("query"));
    let result = main.mount(sub, None);
    assert_eq!(result.tools, 1);
    assert!(main.get_tool("query").is_some());
}

#[test]
fn mount_resources_with_prefix() {
    let mut main = TestRouter::new();
    let mut sub = TestRouter::new();
    sub.add_resource(NamedResource::new("file:///a"));
    let result = main.mount(sub, Some("ns"));
    assert_eq!(result.resources, 1);
    assert!(main.get_resource("ns/file:///a").is_some());
}

#[test]
fn mount_prompts_with_prefix() {
    let mut main = TestRouter::new();
    let mut sub = TestRouter::new();
    sub.add_prompt(NamedPrompt::new("greet"));
    let result = main.mount(sub, Some("ns"));
    assert_eq!(result.prompts, 1);
    assert!(main.get_prompt("ns/greet").is_some());
}

#[test]
fn mount_warns_on_conflict() {
    let mut main = TestRouter::new();
    main.add_tool(NamedTool::new("t"));
    let mut sub = TestRouter::new();
    sub.add_tool(NamedTool::new("t"));
    let result = main.mount(sub, None);
    assert_eq!(result.tools, 1);
    assert!(!result.warnings.is_empty());
    assert!(result.warnings[0].contains("already exists"));
}

#[test]
fn mount_warns_on_invalid_prefix() {
    let mut main = TestRouter::new();
    let sub = TestRouter::new();
    let result = main.mount(sub, Some("bad/prefix"));
    assert!(!result.warnings.is_empty());
    assert!(result.warnings[0].contains("slashes"));
}

#[test]
fn mount_tools_only() {
    let mut main = TestRouter::new();
    let mut sub = TestRouter::new();
    sub.add_tool(NamedTool::new("t1"));
    sub.add_prompt(NamedPrompt::new("p1"));
    let result = main.mount_tools(sub, Some("ns"));
    assert_eq!(result.tools, 1);
    assert!(main.get_tool("ns/t1").is_some());
    assert_eq!(main.prompts_count(), 0); // prompts not mounted
}

#[test]
fn mount_prompts_only() {
    let mut main = TestRouter::new();
    let mut sub = TestRouter::new();
    sub.add_tool(NamedTool::new("t1"));
    sub.add_prompt(NamedPrompt::new("p1"));
    let result = main.mount_prompts(sub, Some("ns"));
    assert_eq!(result.prompts, 1);
    assert!(main.get_prompt("ns/p1").is_some());
    assert_eq!(main.tools_count(), 0); // tools not mounted
}

#[test]
fn mount_resources_only() {
    let mut main = TestRouter::new();
    let mut sub = TestRouter::new();
    sub.add_resource(NamedResource::new("file:///a"));
    sub.add_tool(NamedTool::new("t1"));
    sub.add_resource_template(template("db://{t}", "db", vec![]));
    let result = main.mount_resources(sub, Some("ns"));
    assert_eq!(result.resources, 1);
    assert_eq!(result.resource_templates, 1);
    assert!(main.get_resource("ns/file:///a").is_some());
    assert_eq!(main.tools_count(), 0); // tools not mounted
}

#[test]
fn mount_all_component_types() {
    let mut main = TestRouter::new();
    let mut sub = TestRouter::new();
    sub.add_tool(NamedTool::new("t1"));
    sub.add_resource(NamedResource::new("file:///r1"));
    sub.add_prompt(NamedPrompt::new("p1"));
    sub.add_resource_template(template("db://{table}", "db", vec![]));
    let result = main.mount(sub, Some("ns"));
    assert_eq!(result.tools, 1);
    assert_eq!(result.resources, 1);
    assert_eq!(result.prompts, 1);
    assert_eq!(result.resource_templates, 1);
    assert!(result.has_components());
    assert!(main.get_tool("ns/t1").is_some());
    assert!(main.get_resource("ns/file:///r1").is_some());
    assert!(main.get_prompt("ns/p1").is_some());
}

#[test]
fn mount_warns_on_resource_conflict() {
    let mut main = TestRouter::new();
    main.add_resource(NamedResource::new("file:///a"));
    let mut sub = TestRouter::new();
    sub.add_resource(NamedResource::new("file:///a"));
    let result = main.mount(sub, None);
    assert!(!result.warnings.is_empty());
    assert!(result.warnings[0].contains("Resource"));
}

#[test]
fn mount_warns_on_prompt_conflict() {
    let mut main = TestRouter::new();
    main.add_prompt(NamedPrompt::new("p"));
    let mut sub = TestRouter::new();
    sub.add_prompt(NamedPrompt::new("p"));
    let result = main.mount(sub, None);
    assert!(!result.warnings.is_empty());
    assert!(result.warnings[0].contains("Prompt"));
}

#[test]
fn mount_resource_template_warns_on_conflict() {
    let mut main = TestRouter::new();
    main.add_resource_template(template("db://{table}", "db", vec![]));
    let mut sub = TestRouter::new();
    sub.add_resource_template(template("db://{table}", "db2", vec![]));
    let result = main.mount(sub, None);
    assert!(!result.warnings.is_empty());
    assert!(result.warnings[0].contains("Resource template"));
}

#[test]
fn mount_tools_warns_on_tool_conflict() {
    let mut main = TestRouter::new();
    main.add_tool(NamedTool::new("t"));
    let mut sub = TestRouter::new();
    sub.add_tool(NamedTool::new("t"));
    let result = main.mount_tools(sub, None);
    assert!(!result.warnings.is_empty());
    assert!(result.warnings[0].contains("Tool"));
}

#[test]
fn mount_prompts_warns_on_prompt_conflict() {
    let mut main = TestRouter::new();
    main.add_prompt(NamedPrompt::new("p"));
    let mut sub = TestRouter::new();
    sub.add_prompt(NamedPrompt::new("p"));
    let result = main.mount_prompts(sub, None);
    assert!(!result.warnings.is_empty());
    assert!(result.warnings[0].contains("Prompt"));
}

#[test]
fn mount_keeps_place_of_replaced_and_appends_new() {
    let mut main = TestRouter::new();
    main.add_tool(NamedTool::new("ns/b"));
    main.add_tool(NamedTool::new("z"));
    let mut sub = TestRouter::new();
    sub.add_tool(NamedTool::new("a"));
    sub.add_tool(NamedTool::new("b"));
    let result: MountResult = main.mount(sub, Some("ns"));
    assert_eq!(result.warnings, vec!["Tool 'ns/b' already exists, will be overwritten".to_string()]);
    let names: Vec<_> = main.tools().iter().map(|t| t.name.clone()).collect();
    assert_eq!(names, vec!["ns/b", "z", "ns/a"]);
}

#[test]
fn mounted_template_resolves_under_prefix() {
    let mut main = TestRouter::new();
    let mut sub = TestRouter::new();
    sub.add_resource(NamedResource::templated("db://placeholder", "db://{table}", "db"));
    let result = main.mount(sub, Some("ns"));
    assert_eq!(result.resource_templates, 1);
    assert!(main.get_resource_template("ns/db://{table}").is_some());
    let (_, params) = main.resolve_resource("ns/db://users").expect("resolved");
    assert_eq!(params.get("table").map(String::as_str), Some("users"));
    assert!(!main.resource_exists("db://users"));
}

// ── dispatch checks ────────────────────────────────────────────────────

fn fresh() -> RequestState {
    RequestState { cancel_requested: false, budget_exhausted: false, past_deadline: false }
}

#[test]
fn tool_call_target_checks_in_order() {
    let mut r = TestRouter::new();
    r.add_tool(NamedTool::new("t"));
    let off = disabled(&["t"]);
    let all = RequestState { cancel_requested: true, budget_exhausted: true, past_deadline: true };
    assert_eq!(r.tool_call_target(all, "t", Some(&off)).err(), Some(Refusal::Cancelled));
    let st = RequestState { cancel_requested: false, ..all };
    assert_eq!(r.tool_call_target(st, "t", Some(&off)).err(), Some(Refusal::BudgetExhausted));
    let st = RequestState { budget_exhausted: false, ..st };
    assert_eq!(r.tool_call_target(st, "t", Some(&off)).err(), Some(Refusal::TimeoutExceeded));
    assert_eq!(r.tool_call_target(fresh(), "t", Some(&off)).err(), Some(Refusal::Disabled));
    assert_eq!(r.tool_call_target(fresh(), "missing", None).err(), Some(Refusal::NotFound));
    assert_eq!(r.tool_call_target(fresh(), "t", None).unwrap().name, "t");
}

#[test]
fn prompt_get_target_finds_or_refuses() {
    let mut r = TestRouter::new();
    r.add_prompt(NamedPrompt::new("greet"));
    assert_eq!(r.prompt_get_target(fresh(), "greet", None).unwrap().name, "greet");
    assert_eq!(r.prompt_get_target(fresh(), "other", None).err(), Some(Refusal::NotFound));
    let off = disabled(&["greet"]);
    assert_eq!(r.prompt_get_target(fresh(), "greet", Some(&off)).err(), Some(Refusal::Disabled));
}

#[test]
fn resource_read_target_resolves_templates() {
    let mut r = TestRouter::new();
    r.add_resource(NamedResource::templated("db://placeholder", "db://{table}", "db"));
    let (h, params) = r.resource_read_target(fresh(), "db://users", None).unwrap();
    assert_eq!(h.uri, "db://placeholder");
    assert_eq!(params.get("table").map(String::as_str), Some("users"));
    assert_eq!(r.resource_read_target(fresh(), "file://x", None).err().map(|e| e), Some(Refusal::NotFound));
    let off = disabled(&["db://users"]);
    assert_eq!(r.resource_read_target(fresh(), "db://users", Some(&off)).err(), Some(Refusal::Disabled));
}

#[test]
fn refusal_codes_and_messages() {
    assert!(matches!(refusal_code(ComponentKind::Tool, Refusal::BudgetExhausted), McpErrorCode::RequestCancelled));
    assert!(matches!(refusal_code(ComponentKind::Tool, Refusal::Disabled), McpErrorCode::MethodNotFound));
    assert!(matches!(refusal_code(ComponentKind::Resource, Refusal::NotFound), McpErrorCode::ResourceNotFound));
    assert!(matches!(refusal_code(ComponentKind::Prompt, Refusal::Disabled), McpErrorCode::PromptNotFound));
    assert_eq!(
        refusal_message(ComponentKind::Tool, "t", Refusal::Disabled).as_deref(),
        Some("Tool 't' is disabled for this session")
    );
    assert_eq!(
        refusal_message(ComponentKind::Resource, "file:///a", Refusal::Disabled).as_deref(),
        Some("Resource 'file:///a' is disabled for this session")
    );
    assert_eq!(refusal_message(ComponentKind::Prompt, "p", Refusal::NotFound).as_deref(), Some("Prompt not found: p"));
    assert_eq!(refusal_message(ComponentKind::Tool, "t", Refusal::BudgetExhausted).as_deref(), Some("Request budget exhausted"));
    assert_eq!(refusal_message(ComponentKind::Prompt, "p", Refusal::TimeoutExceeded).as_deref(), Some("Request timeout exceeded"));
    assert_eq!(refusal_message(ComponentKind::Tool, "t", Refusal::NotFound), None);
    assert_eq!(refusal_message(ComponentKind::Tool, "t", Refusal::Cancelled), None);
}

#[test]
fn tool_reply_maps_each_handler_outcome() {
    assert!(matches!(tool_reply(ToolOutcome::Returned(7)), ToolReply::Content(7)));
    let failed = McpError::new(McpErrorCode::InvalidParams, "bad input".to_string());
    assert!(matches!(tool_reply::<i32>(ToolOutcome::Failed(failed)), ToolReply::ErrorText(t) if t == "bad input"));
    let cancelled = McpError::new(McpErrorCode::RequestCancelled, "stop".to_string());
    assert!(matches!(
        tool_reply::<i32>(ToolOutcome::Failed(cancelled)),
        ToolReply::Error(e) if e.code == McpErrorCode::RequestCancelled && e.message == "stop"
    ));
    assert!(matches!(tool_reply::<i32>(ToolOutcome::Cancelled), ToolReply::Cancelled));
    assert!(matches!(
        tool_reply::<i32>(ToolOutcome::Panicked("boom".to_string())),
        ToolReply::Error(e) if e.code == McpErrorCode::InternalError && e.message == "Handler panic: boom"
    ));
}

fn issue(path: &str, message: &str) -> ValidationIssue {
    ValidationIssue { path: path.to_string(), message: message.to_string() }
}

#[test]
fn arguments_refusal_lists_every_complaint() {
    assert!(arguments_refusal(&vec![]).is_none());
    let e = arguments_refusal(&vec![issue("/a", "is required"), issue("/b", "must be a number")]).unwrap();
    assert_eq!(e.code, McpErrorCode::InvalidParams);
    assert_eq!(e.message, "Input validation failed: /a: is required; /b: must be a number");
}

#[test]
fn tool_call_admit_checks_arguments_after_lookup() {
    let mut r = TestRouter::new();
    r.add_tool(NamedTool::new("t"));
    let failing = |_: &NamedTool, _: bool| vec![issue("/x", "bad")];
    let passing = |_: &NamedTool, _: bool| Vec::new();
    assert!(matches!(
        r.tool_call_admit(fresh(), "missing", None, failing),
        Err(ToolCallRefusal::Refused(Refusal::NotFound))
    ));
    let off = disabled(&["t"]);
    assert!(matches!(
        r.tool_call_admit(fresh(), "t", Some(&off), failing),
        Err(ToolCallRefusal::Refused(Refusal::Disabled))
    ));
    assert!(matches!(
        r.tool_call_admit(fresh(), "t", None, failing),
        Err(ToolCallRefusal::InvalidArguments(e)) if e.code == McpErrorCode::InvalidParams
            && e.message == "Input validation failed: /x: bad"
    ));
    assert_eq!(r.tool_call_admit(fresh(), "t", None, passing).ok().map(|h| h.name.clone()), Some("t".to_string()));
    r.set_strict_input_validation(true);
    let strict_only = |_: &NamedTool, strict: bool| if strict { vec![issue("", "extra field")] } else { Vec::new() };
    assert!(matches!(
        r.tool_call_admit(fresh(), "t", None, strict_only),
        Err(ToolCallRefusal::InvalidArguments(_))
    ));
}

#[test]
fn nested_requests_refused_past_the_depth_limit() {
    assert!(depth_refusal(NestedRequest::ToolCall, 10, 10).is_none());
    let e = depth_refusal(NestedRequest::ToolCall, 11, 10).unwrap();
    assert_eq!(e.code, McpErrorCode::InternalError);
    assert_eq!(e.message, "Maximum tool call depth (10) exceeded");
    let e = depth_refusal(NestedRequest::ResourceRead, 4, 3).unwrap();
    assert_eq!(e.message, "Maximum resource read depth (3) exceeded");
    let e = resource_not_found("db://x");
    assert_eq!(e.code, McpErrorCode::ResourceNotFound);
    assert_eq!(e.message, "Resource not found: db://x");
}
