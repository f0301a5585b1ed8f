//! Tool definitions as the JSON tool configuration describes them, and the
//! errors of tool loading and execution.
use vstd::prelude::*;

use crate::text::concat2;

verus! {

/// An error of tool loading or execution.  `Io` and `Json` carry the text
/// of the underlying error.
#[derive(Debug)]
pub enum AppError {
    Io(String),
    Json(String),
    ToolNotFound(String),
    ToolExecFailed(String),
    Config(String),
}

/// The message shown for an error.
pub open spec fn error_text(e: AppError) -> Seq<char> {
    match e {
        AppError::Io(e) => "IO错误: "@ + e@,
        AppError::Json(e) => "JSON解析错误: "@ + e@,
        AppError::ToolNotFound(n) => "工具不存在: "@ + n@,
        AppError::ToolExecFailed(m) => "工具执行失败: "@ + m@,
        AppError::Config(m) => "配置错误: "@ + m@,
    }
}

impl AppError {
    /// The message shown for the error.
    pub fn message(&self) -> (r: String)
        ensures
            r@ == error_text(*self),
    {
        match self {
            AppError::Io(e) => concat2("IO错误: ", e.as_str()),
            AppError::Json(e) => concat2("JSON解析错误: ", e.as_str()),
            AppError::ToolNotFound(n) => concat2("工具不存在: ", n.as_str()),
            AppError::ToolExecFailed(m) => concat2("工具执行失败: ", m.as_str()),
            AppError::Config(m) => concat2("配置错误: ", m.as_str()),
        }
    }
}

/// A tool as a configuration file declares it.  `input_schema` is the JSON
/// text of its input schema; `default_file_path` is the schema's
/// `properties.file_path.default` where that is a string.
pub struct ToolDefinition {
    pub name: String,
    pub description: String,
    pub input_schema: String,
    pub handler: String,
    pub default_file_path: Option<String>,
}

/// A tool configuration file.
pub struct ToolConfig {
    pub version: String,
    pub tools: Vec<ToolDefinition>,
}

} // verus!
