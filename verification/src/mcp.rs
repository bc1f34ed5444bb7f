//! The MCP server's routing: which request methods and tools exist, and
//! the errors for the others.
use vstd::prelude::*;

verus! {

/// A JSON-RPC method the server answers.
#[derive(Debug, Clone, Copy, PartialEq, Eq, Structural)]
pub enum McpMethod {
    Initialize,
    Initialized,
    ToolsList,
    ToolsCall,
}

/// A tool the server can call.
#[derive(Debug, Clone, Copy, PartialEq, Eq, Structural)]
pub enum ToolName {
    Search,
    Read,
    Entity,
    Sources,
    Status,
}

/// The method a request names, if the server knows it.
pub open spec fn method_of(m: Seq<char>) -> Option<McpMethod> {
    if m == "initialize"@ {
        Some(McpMethod::Initialize)
    } else if m == "notifications/initialized"@ {
        Some(McpMethod::Initialized)
    } else if m == "tools/list"@ {
        Some(McpMethod::ToolsList)
    } else if m == "tools/call"@ {
        Some(McpMethod::ToolsCall)
    } else {
        None
    }
}

/// The tool a call names, if the server has it.
pub open spec fn tool_of(n: Seq<char>) -> Option<ToolName> {
    if n == "search"@ {
        Some(ToolName::Search)
    } else if n == "read"@ {
        Some(ToolName::Read)
    } else if n == "entity"@ {
        Some(ToolName::Entity)
    } else if n == "sources"@ {
        Some(ToolName::Sources)
    } else if n == "status"@ {
        Some(ToolName::Status)
    } else {
        None
    }
}

/// The method a request names; an unknown one is answered with an error.
pub fn route_method(method: &str) -> (r: Result<McpMethod, String>)
    ensures
        match method_of(method@) {
            Some(m) => r == Ok::<McpMethod, String>(m),
            None => r matches Err(e) && e@ == "unknown method: "@ + method@,
        },
{
    proof {
        reveal_strlit("initialize");
        reveal_strlit("notifications/initialized");
        reveal_strlit("tools/list");
        reveal_strlit("tools/call");
    }
    let m = String::from_str(method);
    if m == String::from_str("initialize") {
        Ok(McpMethod::Initialize)
    } else if m == String::from_str("notifications/initialized") {
        Ok(McpMethod::Initialized)
    } else if m == String::from_str("tools/list") {
        Ok(McpMethod::ToolsList)
    } else if m == String::from_str("tools/call") {
        Ok(McpMethod::ToolsCall)
    } else {
        let mut e = String::from_str("unknown method: ");
        e.append(method);
        Err(e)
    }
}

/// The tool a call names; an unknown one is answered with an error.
pub fn route_tool(name: &str) -> (r: Result<ToolName, String>)
    ensures
        match tool_of(name@) {
            Some(t) => r == Ok::<ToolName, String>(t),
            None => r matches Err(e) && e@ == "unknown tool: "@ + name@,
        },
{
    proof {
        reveal_strlit("search");
        reveal_strlit("read");
        reveal_strlit("entity");
        reveal_strlit("sources");
        reveal_strlit("status");
    }
    let n = String::from_str(name);
    if n == String::from_str("search") {
        Ok(ToolName::Search)
    } else if n == String::from_str("read") {
        Ok(ToolName::Read)
    } else if n == String::from_str("entity") {
        Ok(ToolName::Entity)
    } else if n == String::from_str("sources") {
        Ok(ToolName::Sources)
    } else if n == String::from_str("status") {
        Ok(ToolName::Status)
    } else {
        let mut e = String::from_str("unknown tool: ");
        e.append(name);
        Err(e)
    }
}

/// The tool a `tools/call` request asks for, given whether it carried
/// parameters and the tool name among them, if any.
pub fn call_target(has_params: bool, name: Option<&str>) -> (r: Result<ToolName, String>)
    ensures
        !has_params ==> (r matches Err(e) && e@ == "missing params"@),
        has_params && name is None ==> (r matches Err(e) && e@ == "missing tool name"@),
        has_params ==> match name {
            Some(n) => match tool_of(n@) {
                Some(t) => r == Ok::<ToolName, String>(t),
                None => r matches Err(e) && e@ == "unknown tool: "@ + n@,
            },
            None => true,
        },
{
    if !has_params {
        return Err(String::from_str("missing params"));
    }
    match name {
        Some(n) => route_tool(n),
        None => Err(String::from_str("missing tool name")),
    }
}

/// The JSON-RPC error code: parse errors, and errors of the server.
pub fn rpc_error_code(parse_failure: bool) -> (c: i32)
    ensures
        c == (if parse_failure { -32700i32 } else { -32000i32 }),
{
    if parse_failure {
        -32700
    } else {
        -32000
    }
}

} // verus!
