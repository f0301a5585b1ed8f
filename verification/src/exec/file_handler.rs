//! Handlers that read files below a base directory.
use vstd::prelude::*;

use crate::exec::ToolHandler;
use crate::text::{concat2, concat3, owned};
use crate::tools::replies::ToolReply;
use crate::tools::schema::AppError;

verus! {

/// Makes file handlers that read below `base_path`.
pub struct FileHandlerFactory {
    pub base_path: String,
}

impl FileHandlerFactory {
    /// A factory reading below `base_path`.
    pub fn new(base_path: &str) -> (r: FileHandlerFactory)
        ensures
            r.base_path@ == base_path@,
    {
        FileHandlerFactory { base_path: crate::text::owned(base_path) }
    }

    /// A handler that returns the text of `file_path` below the base.
    pub fn create_file_handler(&self, file_path: &str) -> (r: ToolHandler)
        ensures
            r matches ToolHandler::ReadFile { base_path, file_path: f } && base_path == self.base_path
                && f@ == file_path@,
    {
        ToolHandler::ReadFile { base_path: self.base_path.clone(), file_path: crate::text::owned(file_path) }
    }

    /// A handler that lists the files of `dir_path` below the base.
    pub fn create_list_handler(&self, dir_path: &str) -> (r: ToolHandler)
        ensures
            r matches ToolHandler::ListDir { base_path, dir_path: d } && base_path == self.base_path
                && d@ == dir_path@,
    {
        ToolHandler::ListDir { base_path: self.base_path.clone(), dir_path: crate::text::owned(dir_path) }
    }
}

/// How reading a file below the base went: the file does not exist, or
/// could not be read for the reason given (each with the path as shown),
/// or its text.
pub enum FileRead {
    Missing(String),
    Failed(String, String),
    Read(String),
}

/// The reply of a file reading handler for `file_path`.
pub fn read_file_reply(file_path: &str, outcome: FileRead) -> (r: Result<ToolReply, AppError>)
    ensures
        match outcome {
            FileRead::Missing(p) => r matches Err(AppError::ToolExecFailed(m)) && m@ == "文件不存在: "@ + p@,
            FileRead::Failed(p, e) => r matches Err(AppError::ToolExecFailed(m)) && m@ == "读取文件失败: "@ + p@
                + " - "@ + e@,
            FileRead::Read(c) => r matches Ok(ToolReply::FileContent { file, content }) && file@ == file_path@
                && content@ == c@,
        },
{
    match outcome {
        FileRead::Missing(p) => Err(AppError::ToolExecFailed(concat2("文件不存在: ", p.as_str()))),
        FileRead::Failed(p, e) => {
            let a = concat3("读取文件失败: ", p.as_str(), " - ");
            Err(AppError::ToolExecFailed(concat2(a.as_str(), e.as_str())))
        },
        FileRead::Read(c) => Ok(ToolReply::FileContent { file: owned(file_path), content: c }),
    }
}

/// How listing a directory below the base went: it does not exist (with
/// its path as shown), or the names of the files in it (none where it
/// could not be read).
pub enum DirRead {
    Missing(String),
    Listed(Vec<String>),
}

/// The reply of a directory listing handler for `dir_path`.
pub fn list_dir_reply(dir_path: &str, outcome: DirRead) -> (r: Result<ToolReply, AppError>)
    ensures
        match outcome {
            DirRead::Missing(p) => r matches Err(AppError::ToolExecFailed(m)) && m@ == "目录不存在: "@ + p@,
            DirRead::Listed(names) => r matches Ok(ToolReply::DirListing { directory, files })
                && directory@ == dir_path@ && files@ == names@,
        },
{
    match outcome {
        DirRead::Missing(p) => Err(AppError::ToolExecFailed(concat2("目录不存在: ", p.as_str()))),
        DirRead::Listed(names) => Ok(ToolReply::DirListing { directory: owned(dir_path), files: names }),
    }
}

} // verus!
