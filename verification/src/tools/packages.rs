//! The built-in tools and their packages.
//!
//! A handler is a number, which the runtime looks up: those of the built-in tools are fixed
//! here.
use vstd::prelude::*;

use crate::text::views;
use crate::tools::define::add_property;
use crate::tools::define::make_package;
use crate::tools::define::make_properties;
use crate::tools::define::make_schema;
use crate::tools::define::make_tool;
use crate::tools::define::mixed_schema;
use crate::tools::define::names_of;
use crate::tools::define::optional;
use crate::tools::define::optional_schema;
use crate::tools::define::package_of;
use crate::tools::define::params_view;
use crate::tools::define::plain_property;
use crate::tools::define::prop;
use crate::tools::define::properties_of;
use crate::tools::define::schema_of;
use crate::tools::define::schema_with_optional;
use crate::tools::define::strings;
use crate::tools::define::tool_of;
use crate::tools::define::with_property;
use crate::tools::define::Param;
use crate::tools::define::ParamView;
use crate::types::tools_view;
use crate::types::AdditionalView;
use crate::types::PackageView;
use crate::types::PropertyType;
use crate::types::PropertyView;
use crate::types::Tool;
use crate::types::ToolAdditionalProperties;
use crate::types::ToolInputProperty;
use crate::types::ToolPackage;
use crate::types::ToolView;

verus! {

/// The first number that is free for other handlers and hooks.
pub const FIRST_FREE: u64 = 1000;

/// The hook that looks for `git` when its package is registered.
pub const GIT_INIT: u64 = 100;

/// The handler of `file_read`.
pub const FILE_READ: u64 = 1;

/// The handler of `file_write`.
pub const FILE_WRITE: u64 = 2;

/// The handler of `file_list`.
pub const FILE_LIST: u64 = 3;

/// The handler of `file_delete`.
pub const FILE_DELETE: u64 = 4;

/// The handler of `file_search`.
pub const FILE_SEARCH: u64 = 5;

/// The handler of `file_find`.
pub const FILE_FIND: u64 = 6;

/// The handler of `http_fetch`.
pub const HTTP_FETCH: u64 = 7;

/// The handler of `git_status`.
pub const GIT_STATUS: u64 = 8;

/// The handler of `git_diff`.
pub const GIT_DIFF: u64 = 9;

/// The handler of `git_log`.
pub const GIT_LOG: u64 = 10;

/// The handler of `git_branch`.
pub const GIT_BRANCH: u64 = 11;

/// The handler of `git_commit`.
pub const GIT_COMMIT: u64 = 12;

/// The handler of `git_add`.
pub const GIT_ADD: u64 = 13;

/// The handler of `shell_exec`.
pub const SHELL_EXEC: u64 = 14;

/// The handler of `shell_spawn`.
pub const SHELL_SPAWN: u64 = 15;

/// The handler of `todo`.
pub const TODO: u64 = 16;

/// The handler of `edit`.
pub const EDIT: u64 = 17;

/// The handler of `eval_exec`.
pub const EVAL_EXEC: u64 = 18;

/// The handler of `browser`.
pub const BROWSER: u64 = 19;

/// The handler of `screenshot`.
pub const SCREENSHOT: u64 = 20;

/// The handler of `playwright_picture`.
pub const PLAYWRIGHT_PICTURE: u64 = 21;

/// The handler of `playwright_script`.
pub const PLAYWRIGHT_SCRIPT: u64 = 22;

/// The handler of `mcp_list`.
pub const MCP_LIST: u64 = 23;

/// The handler of `mcp_connect`.
pub const MCP_CONNECT: u64 = 24;

/// The handler of `ast_grep`.
pub const AST_GREP: u64 = 25;

/// The handler of `ast_edit`.
pub const AST_EDIT: u64 = 26;

/// The handler of `mcp_call`.
pub const MCP_CALL: u64 = 27;

// ---------------------------------------------------------------------------
// `file_read`
// ---------------------------------------------------------------------------

/// What `file_read` may be given.
pub open spec fn file_read_optional() -> Seq<ParamView> {
    seq![
        ("path"@, PropertyType::String, "单个文件路径。选择器：:N-M 行范围 / :N+count / :raw 整文件原文（跳过结构摘要）"@),
        ("paths"@, PropertyType::Array, "批量读：路径数组（每项支持与 path 相同的选择器），一次最多 10 个。要读的文件相互独立时**优先用它**——一次调用读完，不要一个文件一次调用。返回 {files:[…], failed:[…]}，单个路径失败不影响其余。"@),
    ]
}

/// The tool `file_read`.
pub open spec fn file_read_view() -> ToolView {
    tool_of(
        "read"@,
        "读取文件内容。**多个文件一次读完**：把路径放进 paths 数组（一次最多 10 个），内部并发读、按输入顺序回传，不要逐个文件分开调用。单文件用 path。读代码文件且不带行范围时默认回传【结构摘要】：只列顶层定义的签名+行号、折叠函数体，末尾 footer 告诉你要看实现该重读哪几行。要整文件原文用 path:raw；要某段实现用 path:start-end / path:start+count。也支持读取目录列表。"@,
        optional_schema(file_read_optional()),
        FILE_READ,
        true,
        Some(30000),
    )
}

/// The tool `file_read`.
pub fn file_read_tool() -> (r: Tool)
    ensures
        r@ == file_read_view(),
{
    let others: Vec<Param> = vec![
        ("path", PropertyType::String, "单个文件路径。选择器：:N-M 行范围 / :N+count / :raw 整文件原文（跳过结构摘要）"),
        ("paths", PropertyType::Array, "批量读：路径数组（每项支持与 path 相同的选择器），一次最多 10 个。要读的文件相互独立时**优先用它**——一次调用读完，不要一个文件一次调用。返回 {files:[…], failed:[…]}，单个路径失败不影响其余。"),
    ];
    assert(params_view(others@) =~= file_read_optional());
    let schema = optional(others);
    make_tool(
        "read",
        "读取文件内容。**多个文件一次读完**：把路径放进 paths 数组（一次最多 10 个），内部并发读、按输入顺序回传，不要逐个文件分开调用。单文件用 path。读代码文件且不带行范围时默认回传【结构摘要】：只列顶层定义的签名+行号、折叠函数体，末尾 footer 告诉你要看实现该重读哪几行。要整文件原文用 path:raw；要某段实现用 path:start-end / path:start+count。也支持读取目录列表。",
        schema,
        FILE_READ,
        true,
        Some(30000),
    )
}

// ---------------------------------------------------------------------------
// `file_write`
// ---------------------------------------------------------------------------

/// What `file_write` must be given.
pub open spec fn file_write_required() -> Seq<ParamView> {
    seq![
        ("path"@, PropertyType::String, "文件路径"@),
        ("content"@, PropertyType::String, "文件内容"@),
    ]
}

/// The tool `file_write`.
pub open spec fn file_write_view() -> ToolView {
    tool_of(
        "write"@,
        "写入文件内容"@,
        mixed_schema(file_write_required(), Seq::empty()),
        FILE_WRITE,
        false,
        Some(10000),
    )
}

/// The tool `file_write`.
pub fn file_write_tool() -> (r: Tool)
    ensures
        r@ == file_write_view(),
{
    let required: Vec<Param> = vec![
        ("path", PropertyType::String, "文件路径"),
        ("content", PropertyType::String, "文件内容"),
    ];
    assert(params_view(required@) =~= file_write_required());
    let others: Vec<Param> = Vec::new();
    assert(params_view(others@) =~= Seq::<ParamView>::empty());
    let schema = schema_with_optional(required, others);
    make_tool(
        "write",
        "写入文件内容",
        schema,
        FILE_WRITE,
        false,
        Some(10000),
    )
}

// ---------------------------------------------------------------------------
// `file_list`
// ---------------------------------------------------------------------------

/// What `file_list` must be given.
pub open spec fn file_list_required() -> Seq<ParamView> {
    seq![
        ("path"@, PropertyType::String, "目录路径"@),
    ]
}

/// The tool `file_list`.
pub open spec fn file_list_view() -> ToolView {
    tool_of(
        "list"@,
        "列出目录内容"@,
        mixed_schema(file_list_required(), Seq::empty()),
        FILE_LIST,
        true,
        Some(30000),
    )
}

/// The tool `file_list`.
pub fn file_list_tool() -> (r: Tool)
    ensures
        r@ == file_list_view(),
{
    let required: Vec<Param> = vec![
        ("path", PropertyType::String, "目录路径"),
    ];
    assert(params_view(required@) =~= file_list_required());
    let others: Vec<Param> = Vec::new();
    assert(params_view(others@) =~= Seq::<ParamView>::empty());
    let schema = schema_with_optional(required, others);
    make_tool(
        "list",
        "列出目录内容",
        schema,
        FILE_LIST,
        true,
        Some(30000),
    )
}

// ---------------------------------------------------------------------------
// `file_delete`
// ---------------------------------------------------------------------------

/// What `file_delete` must be given.
pub open spec fn file_delete_required() -> Seq<ParamView> {
    seq![
        ("path"@, PropertyType::String, "文件或目录路径"@),
    ]
}

/// The tool `file_delete`.
pub open spec fn file_delete_view() -> ToolView {
    tool_of(
        "delete"@,
        "删除文件或目录"@,
        mixed_schema(file_delete_required(), Seq::empty()),
        FILE_DELETE,
        false,
        Some(10000),
    )
}

/// The tool `file_delete`.
pub fn file_delete_tool() -> (r: Tool)
    ensures
        r@ == file_delete_view(),
{
    let required: Vec<Param> = vec![
        ("path", PropertyType::String, "文件或目录路径"),
    ];
    assert(params_view(required@) =~= file_delete_required());
    let others: Vec<Param> = Vec::new();
    assert(params_view(others@) =~= Seq::<ParamView>::empty());
    let schema = schema_with_optional(required, others);
    make_tool(
        "delete",
        "删除文件或目录",
        schema,
        FILE_DELETE,
        false,
        Some(10000),
    )
}

// ---------------------------------------------------------------------------
// `file_search`
// ---------------------------------------------------------------------------

/// What `file_search` must be given.
pub open spec fn file_search_required() -> Seq<ParamView> {
    seq![
        ("pattern"@, PropertyType::String, "必填。regex 模式；配合 literal=true 时按字面量匹配。大小写是否敏感由 i / ignoreCase 控制。"@),
    ]
}

/// What `file_search` may be given.
pub open spec fn file_search_optional() -> Seq<ParamView> {
    seq![
        ("literal"@, PropertyType::Boolean, "可选，默认 false。true = pattern 按字面文本匹配（自动转义）。搜代码符号如 LOG( 、foo[0] 、a.b 时必须用这个，否则会被当 regex 解析而报错"@),
        ("paths"@, PropertyType::Array, "可选，string[]，默认 [\".\"]。搜索目标，每个元素可以是文件路径、目录路径（递归）或 glob（如 src/**/*.rs）。搜多个目录必须用数组：[\"include\", \"src\"]——不要写成一个空格分隔的字符串。应显式限定到 src/ tests/ 等源码目录以控制返回量。"@),
        ("path"@, PropertyType::String, "可选。单路径写法，等价于 paths: [该值]。只接受一个路径，不支持空格分隔多路径"@),
        ("hidden"@, PropertyType::Boolean, "是否搜索隐藏目录（.latte/ .git/ 等），默认 false。把隐藏目录直接作为 paths 目标时不受此开关影响。"@),
        ("i"@, PropertyType::Boolean, "可选，默认 false。大小写不敏感（别名 ignoreCase）"@),
        ("gitignore"@, PropertyType::Boolean, "可选，默认 true。是否尊重 .gitignore"@),
        ("skip"@, PropertyType::Integer, "可选，默认 0。跳过前 N 个有命中的文件，用于翻页（配合返回的 totalFileCount）"@),
        ("limit"@, PropertyType::Integer, "可选，默认 100，上限 500。单个文件最多返回的匹配行数"@),
    ]
}

/// The tool `file_search`.
pub open spec fn file_search_view() -> ToolView {
    ToolView {
        strict: Some(true),
        ..tool_of(
        "search"@,
        "按正则（或 literal 字面量）搜索文件内容，返回 file:line + 命中行。默认在项目根（.）递归搜索，跳过隐藏目录（.latte/ .git/ 等运行时目录）并尊重 .gitignore；如需搜隐藏目录传 hidden:true，或把该目录直接作为 paths 目标。强烈建议用 paths 限制搜索范围（如 src/ tests/）以控制返回量。支持按文件分页（skip）、每文件匹配上限（limit）与单次返回总字节上限（超出置 truncated）。"@,
        mixed_schema(file_search_required(), file_search_optional()),
        FILE_SEARCH,
        true,
        Some(60000),
    )
    }
}

/// The tool `file_search`.
pub fn file_search_tool() -> (r: Tool)
    ensures
        r@ == file_search_view(),
{
    let required: Vec<Param> = vec![
        ("pattern", PropertyType::String, "必填。regex 模式；配合 literal=true 时按字面量匹配。大小写是否敏感由 i / ignoreCase 控制。"),
    ];
    assert(params_view(required@) =~= file_search_required());
    let others: Vec<Param> = vec![
        ("literal", PropertyType::Boolean, "可选，默认 false。true = pattern 按字面文本匹配（自动转义）。搜代码符号如 LOG( 、foo[0] 、a.b 时必须用这个，否则会被当 regex 解析而报错"),
        ("paths", PropertyType::Array, "可选，string[]，默认 [\".\"]。搜索目标，每个元素可以是文件路径、目录路径（递归）或 glob（如 src/**/*.rs）。搜多个目录必须用数组：[\"include\", \"src\"]——不要写成一个空格分隔的字符串。应显式限定到 src/ tests/ 等源码目录以控制返回量。"),
        ("path", PropertyType::String, "可选。单路径写法，等价于 paths: [该值]。只接受一个路径，不支持空格分隔多路径"),
        ("hidden", PropertyType::Boolean, "是否搜索隐藏目录（.latte/ .git/ 等），默认 false。把隐藏目录直接作为 paths 目标时不受此开关影响。"),
        ("i", PropertyType::Boolean, "可选，默认 false。大小写不敏感（别名 ignoreCase）"),
        ("gitignore", PropertyType::Boolean, "可选，默认 true。是否尊重 .gitignore"),
        ("skip", PropertyType::Integer, "可选，默认 0。跳过前 N 个有命中的文件，用于翻页（配合返回的 totalFileCount）"),
        ("limit", PropertyType::Integer, "可选，默认 100，上限 500。单个文件最多返回的匹配行数"),
    ];
    assert(params_view(others@) =~= file_search_optional());
    let schema = schema_with_optional(required, others);
    Tool::builder(
        "search",
        "按正则（或 literal 字面量）搜索文件内容，返回 file:line + 命中行。默认在项目根（.）递归搜索，跳过隐藏目录（.latte/ .git/ 等运行时目录）并尊重 .gitignore；如需搜隐藏目录传 hidden:true，或把该目录直接作为 paths 目标。强烈建议用 paths 限制搜索范围（如 src/ tests/）以控制返回量。支持按文件分页（skip）、每文件匹配上限（limit）与单次返回总字节上限（超出置 truncated）。",
        schema,
        FILE_SEARCH,
    ).concurrency_safe(true).strict(true).timeout(60000).build()
}

// ---------------------------------------------------------------------------
// `file_find`
// ---------------------------------------------------------------------------

/// What `file_find` must be given.
pub open spec fn file_find_required() -> Seq<ParamView> {
    seq![
        ("paths"@, PropertyType::Array, "glob 模式数组，元素可以是文件路径、目录路径或带 `*` `?` `**` 的 glob"@),
    ]
}

/// The tool `file_find`.
pub open spec fn file_find_view() -> ToolView {
    tool_of(
        "find"@,
        "按 glob 模式在目录树下查找文件"@,
        mixed_schema(file_find_required(), Seq::empty()),
        FILE_FIND,
        true,
        Some(60000),
    )
}

/// The tool `file_find`.
pub fn file_find_tool() -> (r: Tool)
    ensures
        r@ == file_find_view(),
{
    let required: Vec<Param> = vec![
        ("paths", PropertyType::Array, "glob 模式数组，元素可以是文件路径、目录路径或带 `*` `?` `**` 的 glob"),
    ];
    assert(params_view(required@) =~= file_find_required());
    let others: Vec<Param> = Vec::new();
    assert(params_view(others@) =~= Seq::<ParamView>::empty());
    let schema = schema_with_optional(required, others);
    make_tool(
        "find",
        "按 glob 模式在目录树下查找文件",
        schema,
        FILE_FIND,
        true,
        Some(60000),
    )
}

// ---------------------------------------------------------------------------
// `http_fetch`
// ---------------------------------------------------------------------------

/// What `http_fetch` must be given.
pub open spec fn http_fetch_required() -> Seq<ParamView> {
    seq![
        ("url"@, PropertyType::String, "完整 URL，仅支持 http:// 与 https://"@),
    ]
}

/// The tool `http_fetch`.
pub open spec fn http_fetch_view() -> ToolView {
    tool_of(
        "fetch"@,
        "发起 HTTP/HTTPS 请求并返回响应"@,
        mixed_schema(http_fetch_required(), Seq::empty()),
        HTTP_FETCH,
        true,
        Some(60000),
    )
}

/// The tool `http_fetch`.
pub fn http_fetch_tool() -> (r: Tool)
    ensures
        r@ == http_fetch_view(),
{
    let required: Vec<Param> = vec![
        ("url", PropertyType::String, "完整 URL，仅支持 http:// 与 https://"),
    ];
    assert(params_view(required@) =~= http_fetch_required());
    let others: Vec<Param> = Vec::new();
    assert(params_view(others@) =~= Seq::<ParamView>::empty());
    let schema = schema_with_optional(required, others);
    make_tool(
        "fetch",
        "发起 HTTP/HTTPS 请求并返回响应",
        schema,
        HTTP_FETCH,
        true,
        Some(60000),
    )
}

// ---------------------------------------------------------------------------
// `git_status`
// ---------------------------------------------------------------------------

/// What `git_status` may be given.
pub open spec fn git_status_optional() -> Seq<ParamView> {
    seq![
        ("short"@, PropertyType::Boolean, "使用简短格式"@),
        ("branch"@, PropertyType::Boolean, "显示分支信息"@),
        ("porcelain"@, PropertyType::Boolean, "使用机器可读格式"@),
    ]
}

/// The tool `git_status`.
pub open spec fn git_status_view() -> ToolView {
    tool_of(
        "status"@,
        "获取 git 工作区状态"@,
        optional_schema(git_status_optional()),
        GIT_STATUS,
        true,
        Some(30000),
    )
}

/// The tool `git_status`.
pub fn git_status_tool() -> (r: Tool)
    ensures
        r@ == git_status_view(),
{
    let others: Vec<Param> = vec![
        ("short", PropertyType::Boolean, "使用简短格式"),
        ("branch", PropertyType::Boolean, "显示分支信息"),
        ("porcelain", PropertyType::Boolean, "使用机器可读格式"),
    ];
    assert(params_view(others@) =~= git_status_optional());
    let schema = optional(others);
    make_tool(
        "status",
        "获取 git 工作区状态",
        schema,
        GIT_STATUS,
        true,
        Some(30000),
    )
}

// ---------------------------------------------------------------------------
// `git_diff`
// ---------------------------------------------------------------------------

/// What `git_diff` may be given.
pub open spec fn git_diff_optional() -> Seq<ParamView> {
    seq![
        ("staged"@, PropertyType::Boolean, "显示暂存区的差异"@),
        ("file"@, PropertyType::String, "指定文件路径"@),
        ("branch"@, PropertyType::String, "与指定分支比较"@),
    ]
}

/// The tool `git_diff`.
pub open spec fn git_diff_view() -> ToolView {
    tool_of(
        "diff"@,
        "查看 git 差异"@,
        optional_schema(git_diff_optional()),
        GIT_DIFF,
        true,
        Some(30000),
    )
}

/// The tool `git_diff`.
pub fn git_diff_tool() -> (r: Tool)
    ensures
        r@ == git_diff_view(),
{
    let others: Vec<Param> = vec![
        ("staged", PropertyType::Boolean, "显示暂存区的差异"),
        ("file", PropertyType::String, "指定文件路径"),
        ("branch", PropertyType::String, "与指定分支比较"),
    ];
    assert(params_view(others@) =~= git_diff_optional());
    let schema = optional(others);
    make_tool(
        "diff",
        "查看 git 差异",
        schema,
        GIT_DIFF,
        true,
        Some(30000),
    )
}

// ---------------------------------------------------------------------------
// `git_log`
// ---------------------------------------------------------------------------

/// What `git_log` may be given.
pub open spec fn git_log_optional() -> Seq<ParamView> {
    seq![
        ("oneline"@, PropertyType::Boolean, "使用单行格式"@),
        ("n"@, PropertyType::Integer, "限制显示的提交数量"@),
        ("file"@, PropertyType::String, "指定文件路径"@),
        ("follow"@, PropertyType::Boolean, "跟踪文件重命名"@),
    ]
}

/// The tool `git_log`.
pub open spec fn git_log_view() -> ToolView {
    tool_of(
        "log"@,
        "查看 git 提交历史"@,
        optional_schema(git_log_optional()),
        GIT_LOG,
        true,
        Some(30000),
    )
}

/// The tool `git_log`.
pub fn git_log_tool() -> (r: Tool)
    ensures
        r@ == git_log_view(),
{
    let others: Vec<Param> = vec![
        ("oneline", PropertyType::Boolean, "使用单行格式"),
        ("n", PropertyType::Integer, "限制显示的提交数量"),
        ("file", PropertyType::String, "指定文件路径"),
        ("follow", PropertyType::Boolean, "跟踪文件重命名"),
    ];
    assert(params_view(others@) =~= git_log_optional());
    let schema = optional(others);
    make_tool(
        "log",
        "查看 git 提交历史",
        schema,
        GIT_LOG,
        true,
        Some(30000),
    )
}

// ---------------------------------------------------------------------------
// `git_branch`
// ---------------------------------------------------------------------------

/// What `git_branch` may be given.
pub open spec fn git_branch_optional() -> Seq<ParamView> {
    seq![
        ("list"@, PropertyType::Boolean, "列出所有分支"@),
        ("create"@, PropertyType::String, "创建新分支"@),
        ("delete"@, PropertyType::String, "删除分支"@),
        ("force"@, PropertyType::Boolean, "强制操作"@),
    ]
}

/// The tool `git_branch`.
pub open spec fn git_branch_view() -> ToolView {
    tool_of(
        "branch"@,
        "管理 git 分支"@,
        optional_schema(git_branch_optional()),
        GIT_BRANCH,
        true,
        Some(30000),
    )
}

/// The tool `git_branch`.
pub fn git_branch_tool() -> (r: Tool)
    ensures
        r@ == git_branch_view(),
{
    let others: Vec<Param> = vec![
        ("list", PropertyType::Boolean, "列出所有分支"),
        ("create", PropertyType::String, "创建新分支"),
        ("delete", PropertyType::String, "删除分支"),
        ("force", PropertyType::Boolean, "强制操作"),
    ];
    assert(params_view(others@) =~= git_branch_optional());
    let schema = optional(others);
    make_tool(
        "branch",
        "管理 git 分支",
        schema,
        GIT_BRANCH,
        true,
        Some(30000),
    )
}

// ---------------------------------------------------------------------------
// `git_commit`
// ---------------------------------------------------------------------------

/// What `git_commit` must be given.
pub open spec fn git_commit_required() -> Seq<ParamView> {
    seq![
        ("message"@, PropertyType::String, "提交信息"@),
    ]
}

/// The tool `git_commit`.
pub open spec fn git_commit_view() -> ToolView {
    tool_of(
        "commit"@,
        "创建 git 提交"@,
        mixed_schema(git_commit_required(), Seq::empty()),
        GIT_COMMIT,
        false,
        Some(30000),
    )
}

/// The tool `git_commit`.
pub fn git_commit_tool() -> (r: Tool)
    ensures
        r@ == git_commit_view(),
{
    let required: Vec<Param> = vec![
        ("message", PropertyType::String, "提交信息"),
    ];
    assert(params_view(required@) =~= git_commit_required());
    let others: Vec<Param> = Vec::new();
    assert(params_view(others@) =~= Seq::<ParamView>::empty());
    let schema = schema_with_optional(required, others);
    make_tool(
        "commit",
        "创建 git 提交",
        schema,
        GIT_COMMIT,
        false,
        Some(30000),
    )
}

// ---------------------------------------------------------------------------
// `git_add`
// ---------------------------------------------------------------------------

/// What `git_add` may be given.
pub open spec fn git_add_optional() -> Seq<ParamView> {
    seq![
        ("files"@, PropertyType::Array, "要添加的文件列表"@),
        ("all"@, PropertyType::Boolean, "添加所有更改"@),
    ]
}

/// The tool `git_add`.
pub open spec fn git_add_view() -> ToolView {
    tool_of(
        "add"@,
        "添加文件到暂存区"@,
        optional_schema(git_add_optional()),
        GIT_ADD,
        false,
        Some(30000),
    )
}

/// The tool `git_add`.
pub fn git_add_tool() -> (r: Tool)
    ensures
        r@ == git_add_view(),
{
    let others: Vec<Param> = vec![
        ("files", PropertyType::Array, "要添加的文件列表"),
        ("all", PropertyType::Boolean, "添加所有更改"),
    ];
    assert(params_view(others@) =~= git_add_optional());
    let schema = optional(others);
    make_tool(
        "add",
        "添加文件到暂存区",
        schema,
        GIT_ADD,
        false,
        Some(30000),
    )
}

// ---------------------------------------------------------------------------
// `shell_exec`
// ---------------------------------------------------------------------------

/// What `shell_exec` must be given.
pub open spec fn shell_exec_required() -> Seq<ParamView> {
    seq![
        ("command"@, PropertyType::String, "要执行的命令"@),
    ]
}

/// What `shell_exec` may be given.
pub open spec fn shell_exec_optional() -> Seq<ParamView> {
    seq![
        ("cwd"@, PropertyType::String, "工作目录。可选。如果 command 以 `cd X &&` 开头，会被自动提取。"@),
        ("timeout"@, PropertyType::Number, "超时（秒），默认 300s (L1)。命令超过这个时间会被 kill 掉。"@),
        ("env"@, PropertyType::Object, "额外的环境变量（key=value 字符串映射）"@),
        ("stdin"@, PropertyType::String, "标准输入内容（可选）"@),
        ("async"@, PropertyType::Boolean, "后台执行模式。设为 true 立即返回 jobId，不等待命令完成。"@),
        ("wait"@, PropertyType::Boolean, "等待后台 job 完成。需要配合 `jobId` 使用。"@),
        ("jobId"@, PropertyType::String, "后台 job ID。wait=true 时必填，指定要等待的 job。"@),
    ]
}

/// The tool `shell_exec`.
pub open spec fn shell_exec_view() -> ToolView {
    tool_of(
        "exec"@,
        "执行 shell 命令并返回输出。支持前台执行（默认）和后台执行（`async: true` 返回 jobId，之后用 `wait: true` + `jobId` 取结果）。支持 `stdin` 输入。支持 `cwd`、`timeout`、`env` 参数。"@,
        mixed_schema(shell_exec_required(), shell_exec_optional()),
        SHELL_EXEC,
        false,
        Some(300000),
    )
}

/// The tool `shell_exec`.
pub fn shell_exec_tool() -> (r: Tool)
    ensures
        r@ == shell_exec_view(),
{
    let required: Vec<Param> = vec![
        ("command", PropertyType::String, "要执行的命令"),
    ];
    assert(params_view(required@) =~= shell_exec_required());
    let others: Vec<Param> = vec![
        ("cwd", PropertyType::String, "工作目录。可选。如果 command 以 `cd X &&` 开头，会被自动提取。"),
        ("timeout", PropertyType::Number, "超时（秒），默认 300s (L1)。命令超过这个时间会被 kill 掉。"),
        ("env", PropertyType::Object, "额外的环境变量（key=value 字符串映射）"),
        ("stdin", PropertyType::String, "标准输入内容（可选）"),
        ("async", PropertyType::Boolean, "后台执行模式。设为 true 立即返回 jobId，不等待命令完成。"),
        ("wait", PropertyType::Boolean, "等待后台 job 完成。需要配合 `jobId` 使用。"),
        ("jobId", PropertyType::String, "后台 job ID。wait=true 时必填，指定要等待的 job。"),
    ];
    assert(params_view(others@) =~= shell_exec_optional());
    let schema = schema_with_optional(required, others);
    make_tool(
        "exec",
        "执行 shell 命令并返回输出。支持前台执行（默认）和后台执行（`async: true` 返回 jobId，之后用 `wait: true` + `jobId` 取结果）。支持 `stdin` 输入。支持 `cwd`、`timeout`、`env` 参数。",
        schema,
        SHELL_EXEC,
        false,
        Some(300000),
    )
}

// ---------------------------------------------------------------------------
// `shell_spawn`
// ---------------------------------------------------------------------------

/// What `shell_spawn` must be given.
pub open spec fn shell_spawn_required() -> Seq<ParamView> {
    seq![
        ("command"@, PropertyType::String, "命令"@),
    ]
}

/// The tool `shell_spawn`.
pub open spec fn shell_spawn_view() -> ToolView {
    tool_of(
        "spawn"@,
        "启动进程并流式处理输出"@,
        mixed_schema(shell_spawn_required(), Seq::empty()),
        SHELL_SPAWN,
        false,
        Some(60000),
    )
}

/// The tool `shell_spawn`.
pub fn shell_spawn_tool() -> (r: Tool)
    ensures
        r@ == shell_spawn_view(),
{
    let required: Vec<Param> = vec![
        ("command", PropertyType::String, "命令"),
    ];
    assert(params_view(required@) =~= shell_spawn_required());
    let others: Vec<Param> = Vec::new();
    assert(params_view(others@) =~= Seq::<ParamView>::empty());
    let schema = schema_with_optional(required, others);
    make_tool(
        "spawn",
        "启动进程并流式处理输出",
        schema,
        SHELL_SPAWN,
        false,
        Some(60000),
    )
}

// ---------------------------------------------------------------------------
// `todo`
// ---------------------------------------------------------------------------

/// What `todo` must be given.
pub open spec fn todo_required() -> Seq<ParamView> {
    seq![
        ("ops"@, PropertyType::Array, "原子操作序列，JSON 序列化数组"@),
    ]
}

/// What `todo` may be given.
pub open spec fn todo_optional() -> Seq<ParamView> {
    seq![
        ("currentPhases"@, PropertyType::Array, "JSON 序列化的 phases 数组（或直接传数组）"@),
    ]
}

/// The tool `todo`.
pub open spec fn todo_view() -> ToolView {
    tool_of(
        "todo"@,
        "管理 todo 列表（原子批量操作）"@,
        mixed_schema(todo_required(), todo_optional()),
        TODO,
        false,
        Some(10000),
    )
}

/// The tool `todo`.
pub fn todo_tool() -> (r: Tool)
    ensures
        r@ == todo_view(),
{
    let required: Vec<Param> = vec![
        ("ops", PropertyType::Array, "原子操作序列，JSON 序列化数组"),
    ];
    assert(params_view(required@) =~= todo_required());
    let others: Vec<Param> = vec![
        ("currentPhases", PropertyType::Array, "JSON 序列化的 phases 数组（或直接传数组）"),
    ];
    assert(params_view(others@) =~= todo_optional());
    let schema = schema_with_optional(required, others);
    make_tool(
        "todo",
        "管理 todo 列表（原子批量操作）",
        schema,
        TODO,
        false,
        Some(10000),
    )
}

// ---------------------------------------------------------------------------
// `file_edit`
// ---------------------------------------------------------------------------

/// What `file_edit` must be given.
pub open spec fn file_edit_required() -> Seq<ParamView> {
    seq![
        ("path"@, PropertyType::String, "File path to edit (required)."@),
        ("ops"@, PropertyType::Array, "Array of edit operations. Each op is either line-based (start_line[, end_line][, delete|insert_after|insert_before], new_content) or text-based (old_text, new_text|delete). For line-based ops also pass `expect` — the exact text you believe occupies that range: it is verified, and if your line numbers are slightly off the tool relocates the edit automatically (unique match) instead of corrupting the wrong lines. Text-based ops must match exactly one location; if `old_text` occurs multiple times the edit is rejected — widen the context to make it unique, or pass `all: true` to intentionally replace every occurrence."@),
    ]
}

/// What `file_edit` may be given.
pub open spec fn file_edit_optional() -> Seq<ParamView> {
    seq![
        ("tag"@, PropertyType::String, "Optional 4-hex content snapshot tag from the latest `read` of this file. When provided it is verified against the live file and the edit is REJECTED if the file changed since that read (stale anchor). Strongly recommended for line-number edits."@),
    ]
}

/// The tool `file_edit`.
pub open spec fn file_edit_view() -> ToolView {
    tool_of(
        "edit"@,
        "Apply precise text edits to a file."@,
        mixed_schema(file_edit_required(), file_edit_optional()),
        EDIT,
        false,
        Some(30000),
    )
}

/// The tool `file_edit`.
pub fn file_edit_tool() -> (r: Tool)
    ensures
        r@ == file_edit_view(),
{
    let required: Vec<Param> = vec![
        ("path", PropertyType::String, "File path to edit (required)."),
        ("ops", PropertyType::Array, "Array of edit operations. Each op is either line-based (start_line[, end_line][, delete|insert_after|insert_before], new_content) or text-based (old_text, new_text|delete). For line-based ops also pass `expect` — the exact text you believe occupies that range: it is verified, and if your line numbers are slightly off the tool relocates the edit automatically (unique match) instead of corrupting the wrong lines. Text-based ops must match exactly one location; if `old_text` occurs multiple times the edit is rejected — widen the context to make it unique, or pass `all: true` to intentionally replace every occurrence."),
    ];
    assert(params_view(required@) =~= file_edit_required());
    let others: Vec<Param> = vec![
        ("tag", PropertyType::String, "Optional 4-hex content snapshot tag from the latest `read` of this file. When provided it is verified against the live file and the edit is REJECTED if the file changed since that read (stale anchor). Strongly recommended for line-number edits."),
    ];
    assert(params_view(others@) =~= file_edit_optional());
    let schema = schema_with_optional(required, others);
    make_tool(
        "edit",
        "Apply precise text edits to a file.",
        schema,
        EDIT,
        false,
        Some(30000),
    )
}

// ---------------------------------------------------------------------------
// `eval_exec`
// ---------------------------------------------------------------------------

/// What `eval_exec` must be given.
pub open spec fn eval_exec_required() -> Seq<ParamView> {
    seq![
        ("code"@, PropertyType::String, "Python code to execute"@),
    ]
}

/// What `eval_exec` may be given.
pub open spec fn eval_exec_optional() -> Seq<ParamView> {
    seq![
        ("session_id"@, PropertyType::String, "Session ID for persistent REPL (optional). Same ID reuses the same Python process."@),
        ("cwd"@, PropertyType::String, "Working directory (optional). Defaults to session cwd."@),
        ("timeout"@, PropertyType::Number, "Timeout in seconds (default 30, max 300)."@),
        ("reset"@, PropertyType::Boolean, "Reset the session (kill existing process) before running."@),
    ]
}

/// The tool `eval_exec`.
pub open spec fn eval_exec_view() -> ToolView {
    tool_of(
        "exec"@,
        "Execute Python code and return the output. Supports persistent REPL sessions (use `session_id`) that keep variables across calls. Use `reset: true` to restart a session."@,
        mixed_schema(eval_exec_required(), eval_exec_optional()),
        EVAL_EXEC,
        false,
        Some(305000),
    )
}

/// The tool `eval_exec`.
pub fn eval_exec_tool() -> (r: Tool)
    ensures
        r@ == eval_exec_view(),
{
    let required: Vec<Param> = vec![
        ("code", PropertyType::String, "Python code to execute"),
    ];
    assert(params_view(required@) =~= eval_exec_required());
    let others: Vec<Param> = vec![
        ("session_id", PropertyType::String, "Session ID for persistent REPL (optional). Same ID reuses the same Python process."),
        ("cwd", PropertyType::String, "Working directory (optional). Defaults to session cwd."),
        ("timeout", PropertyType::Number, "Timeout in seconds (default 30, max 300)."),
        ("reset", PropertyType::Boolean, "Reset the session (kill existing process) before running."),
    ];
    assert(params_view(others@) =~= eval_exec_optional());
    let schema = schema_with_optional(required, others);
    make_tool(
        "exec",
        "Execute Python code and return the output. Supports persistent REPL sessions (use `session_id`) that keep variables across calls. Use `reset: true` to restart a session.",
        schema,
        EVAL_EXEC,
        false,
        Some(305000),
    )
}

// ---------------------------------------------------------------------------
// `browser`
// ---------------------------------------------------------------------------

/// What `browser` must be given.
pub open spec fn browser_required() -> Seq<ParamView> {
    seq![
        ("action"@, PropertyType::String, "Action: open/goto/click/type/fill/screenshot/extract/evaluate/close"@),
    ]
}

/// What `browser` may be given.
pub open spec fn browser_optional() -> Seq<ParamView> {
    seq![
        ("url"@, PropertyType::String, "URL for open/goto"@),
        ("selector"@, PropertyType::String, "CSS selector for click/type/fill"@),
        ("text"@, PropertyType::String, "Text for type/fill"@),
        ("script"@, PropertyType::String, "JS expression for evaluate"@),
        ("width"@, PropertyType::Integer, "Viewport width (1280)"@),
        ("height"@, PropertyType::Integer, "Viewport height (720)"@),
        ("timeout"@, PropertyType::Number, "Timeout ms (30000)"@),
    ]
}

/// The tool `browser`.
pub open spec fn browser_view() -> ToolView {
    tool_of(
        "browser"@,
        "Browser automation: open/goto/click/type/fill/screenshot/extract/evaluate/close."@,
        mixed_schema(browser_required(), browser_optional()),
        BROWSER,
        false,
        Some(120000),
    )
}

/// The tool `browser`.
pub fn browser_tool() -> (r: Tool)
    ensures
        r@ == browser_view(),
{
    let required: Vec<Param> = vec![
        ("action", PropertyType::String, "Action: open/goto/click/type/fill/screenshot/extract/evaluate/close"),
    ];
    assert(params_view(required@) =~= browser_required());
    let others: Vec<Param> = vec![
        ("url", PropertyType::String, "URL for open/goto"),
        ("selector", PropertyType::String, "CSS selector for click/type/fill"),
        ("text", PropertyType::String, "Text for type/fill"),
        ("script", PropertyType::String, "JS expression for evaluate"),
        ("width", PropertyType::Integer, "Viewport width (1280)"),
        ("height", PropertyType::Integer, "Viewport height (720)"),
        ("timeout", PropertyType::Number, "Timeout ms (30000)"),
    ];
    assert(params_view(others@) =~= browser_optional());
    let schema = schema_with_optional(required, others);
    make_tool(
        "browser",
        "Browser automation: open/goto/click/type/fill/screenshot/extract/evaluate/close.",
        schema,
        BROWSER,
        false,
        Some(120000),
    )
}

// ---------------------------------------------------------------------------
// `screenshot`
// ---------------------------------------------------------------------------

/// What `screenshot` must be given.
pub open spec fn screenshot_required() -> Seq<ParamView> {
    seq![
        ("url"@, PropertyType::String, "URL to screenshot (default: http://localhost:4567)"@),
    ]
}

/// What `screenshot` may be given.
pub open spec fn screenshot_optional() -> Seq<ParamView> {
    seq![
        ("output"@, PropertyType::String, "File path to save the screenshot (default: /tmp/latte-screenshot.png)"@),
        ("width"@, PropertyType::Integer, "Viewport width (default: 1920)"@),
        ("height"@, PropertyType::Integer, "Viewport height (default: 1080)"@),
    ]
}

/// The tool `screenshot`.
pub open spec fn screenshot_view() -> ToolView {
    tool_of(
        "screenshot"@,
        "Capture a browser screenshot via headless Chromium. Returns the image as a base64 data URI so you can 'see' the current UI state. Use this to verify UI changes, check page layout, or inspect rendered content."@,
        mixed_schema(screenshot_required(), screenshot_optional()),
        SCREENSHOT,
        true,
        None,
    )
}

/// The tool `screenshot`.
pub fn screenshot_tool() -> (r: Tool)
    ensures
        r@ == screenshot_view(),
{
    let required: Vec<Param> = vec![
        ("url", PropertyType::String, "URL to screenshot (default: http://localhost:4567)"),
    ];
    assert(params_view(required@) =~= screenshot_required());
    let others: Vec<Param> = vec![
        ("output", PropertyType::String, "File path to save the screenshot (default: /tmp/latte-screenshot.png)"),
        ("width", PropertyType::Integer, "Viewport width (default: 1920)"),
        ("height", PropertyType::Integer, "Viewport height (default: 1080)"),
    ];
    assert(params_view(others@) =~= screenshot_optional());
    let schema = schema_with_optional(required, others);
    make_tool(
        "screenshot",
        "Capture a browser screenshot via headless Chromium. Returns the image as a base64 data URI so you can 'see' the current UI state. Use this to verify UI changes, check page layout, or inspect rendered content.",
        schema,
        SCREENSHOT,
        true,
        None,
    )
}

// ---------------------------------------------------------------------------
// `picture`
// ---------------------------------------------------------------------------

/// What `picture` may be given.
pub open spec fn picture_optional() -> Seq<ParamView> {
    seq![
        ("url"@, PropertyType::String, "URL to screenshot (default: http://localhost:4567)"@),
        ("width"@, PropertyType::Integer, "Viewport width (default: 1920)"@),
        ("height"@, PropertyType::Integer, "Viewport height (default: 1080)"@),
    ]
}

/// The tool `picture`.
pub open spec fn picture_view() -> ToolView {
    tool_of(
        "screenshot"@,
        "Take a screenshot of a web page using headless Chromium. Returns image dimensions and hex-encoded pixel data."@,
        optional_schema(picture_optional()),
        PLAYWRIGHT_PICTURE,
        true,
        Some(30000),
    )
}

/// The tool `picture`.
pub fn picture_tool() -> (r: Tool)
    ensures
        r@ == picture_view(),
{
    let others: Vec<Param> = vec![
        ("url", PropertyType::String, "URL to screenshot (default: http://localhost:4567)"),
        ("width", PropertyType::Integer, "Viewport width (default: 1920)"),
        ("height", PropertyType::Integer, "Viewport height (default: 1080)"),
    ];
    assert(params_view(others@) =~= picture_optional());
    let schema = optional(others);
    make_tool(
        "screenshot",
        "Take a screenshot of a web page using headless Chromium. Returns image dimensions and hex-encoded pixel data.",
        schema,
        PLAYWRIGHT_PICTURE,
        true,
        Some(30000),
    )
}

// ---------------------------------------------------------------------------
// `script`
// ---------------------------------------------------------------------------

/// What `script` must be given.
pub open spec fn script_required() -> Seq<ParamView> {
    seq![
        ("script"@, PropertyType::String, "Full Node.js Playwright script to execute"@),
    ]
}

/// The tool `script`.
pub open spec fn script_view() -> ToolView {
    tool_of(
        "playwright_script"@,
        "Execute a custom Playwright Node.js script. Returns stdout/stderr."@,
        mixed_schema(script_required(), Seq::empty()),
        PLAYWRIGHT_SCRIPT,
        true,
        Some(60000),
    )
}

/// The tool `script`.
pub fn script_tool() -> (r: Tool)
    ensures
        r@ == script_view(),
{
    let required: Vec<Param> = vec![
        ("script", PropertyType::String, "Full Node.js Playwright script to execute"),
    ];
    assert(params_view(required@) =~= script_required());
    let others: Vec<Param> = Vec::new();
    assert(params_view(others@) =~= Seq::<ParamView>::empty());
    let schema = schema_with_optional(required, others);
    make_tool(
        "playwright_script",
        "Execute a custom Playwright Node.js script. Returns stdout/stderr.",
        schema,
        PLAYWRIGHT_SCRIPT,
        true,
        Some(60000),
    )
}

// ---------------------------------------------------------------------------
// `mcp_list`
// ---------------------------------------------------------------------------

/// The tool `mcp_list`.
pub open spec fn mcp_list_view() -> ToolView {
    tool_of(
        "mcp_list"@,
        "List connected MCP servers"@,
        optional_schema(Seq::empty()),
        MCP_LIST,
        true,
        None,
    )
}

/// The tool `mcp_list`.
pub fn mcp_list_tool() -> (r: Tool)
    ensures
        r@ == mcp_list_view(),
{
    let others: Vec<Param> = Vec::new();
    assert(params_view(others@) =~= Seq::<ParamView>::empty());
    let schema = optional(others);
    make_tool(
        "mcp_list",
        "List connected MCP servers",
        schema,
        MCP_LIST,
        true,
        None,
    )
}

// ---------------------------------------------------------------------------
// `mcp_connect`
// ---------------------------------------------------------------------------

/// What `mcp_connect` must be given.
pub open spec fn mcp_connect_required() -> Seq<ParamView> {
    seq![
        ("command"@, PropertyType::String, "Shell command to start the MCP server"@),
    ]
}

/// The tool `mcp_connect`.
pub open spec fn mcp_connect_view() -> ToolView {
    tool_of(
        "mcp_connect"@,
        "Connect to an MCP server and discover tools"@,
        mixed_schema(mcp_connect_required(), Seq::empty()),
        MCP_CONNECT,
        true,
        None,
    )
}

/// The tool `mcp_connect`.
pub fn mcp_connect_tool() -> (r: Tool)
    ensures
        r@ == mcp_connect_view(),
{
    let required: Vec<Param> = vec![
        ("command", PropertyType::String, "Shell command to start the MCP server"),
    ];
    assert(params_view(required@) =~= mcp_connect_required());
    let others: Vec<Param> = Vec::new();
    assert(params_view(others@) =~= Seq::<ParamView>::empty());
    let schema = schema_with_optional(required, others);
    make_tool(
        "mcp_connect",
        "Connect to an MCP server and discover tools",
        schema,
        MCP_CONNECT,
        true,
        None,
    )
}

// ---------------------------------------------------------------------------
// `ast_grep` and `ast_edit`
// ---------------------------------------------------------------------------

/// A list of texts.
pub open spec fn text_list(description: Seq<char>, item: Seq<char>) -> PropertyView {
    PropertyView {
        items: Some(Box::new(plain_property(PropertyType::String, item))),
        ..plain_property(PropertyType::Array, description)
    }
}

fn make_text_list(description: &str, item: &str) -> (r: ToolInputProperty)
    ensures
        r@ == text_list(description@, item@),
{
    prop(PropertyType::Array, description).with_items(prop(PropertyType::String, item))
}

/// What `ast_grep` takes, but for its paths.
pub open spec fn ast_grep_params() -> Seq<ParamView> {
    seq![
        ("pat"@, PropertyType::String, "AST pattern. $NAME/$_ = one node, $$$NAME/$$$ = zero-or-more."@),
        ("lang"@, PropertyType::String, "Language override."@),
        ("skip"@, PropertyType::Number, "Skip first N matches."@),
        ("limit"@, PropertyType::Number, "Max matches (default 100)."@),
    ]
}

/// The tool `ast_grep`.
pub open spec fn ast_grep_view() -> ToolView {
    tool_of(
        "grep"@,
        "AST structural code search. 26+ languages. Use $NAME/$_ for one node, $$$NAME/$$$ for zero-or-more."@,
        schema_of(
            with_property(
                properties_of(ast_grep_params()),
                "paths"@,
                text_list("Files, dirs, or globs."@, "File, dir, or glob."@),
            ),
            Some(seq!["pat"@, "paths"@]),
        ),
        AST_GREP,
        true,
        Some(60000),
    )
}

/// The tool `ast_grep`.
pub fn ast_grep_tool() -> (r: Tool)
    ensures
        r@ == ast_grep_view(),
{
    let params: Vec<Param> = vec![
        ("pat", PropertyType::String, "AST pattern. $NAME/$_ = one node, $$$NAME/$$$ = zero-or-more."),
        ("lang", PropertyType::String, "Language override."),
        ("skip", PropertyType::Number, "Skip first N matches."),
        ("limit", PropertyType::Number, "Max matches (default 100)."),
    ];
    assert(params_view(params@) =~= ast_grep_params());
    let mut properties = make_properties(&params);
    add_property(
        &mut properties,
        "paths",
        make_text_list("Files, dirs, or globs.", "File, dir, or glob."),
    );
    let required = strings(&["pat", "paths"]);
    assert(views(required@) =~= seq!["pat"@, "paths"@]);
    let schema = make_schema(properties, Some(required));
    make_tool(
        "grep",
        "AST structural code search. 26+ languages. Use $NAME/$_ for one node, $$$NAME/$$$ for zero-or-more.",
        schema,
        AST_GREP,
        true,
        Some(60000),
    )
}

/// What `ast_edit` takes, but for its paths.
pub open spec fn ast_edit_params() -> Seq<ParamView> {
    seq![
        ("pat"@, PropertyType::String, "AST pattern."@),
        ("out"@, PropertyType::String, "Replacement pattern."@),
        ("lang"@, PropertyType::String, "Language override."@),
    ]
}

/// The tool `ast_edit`.
pub open spec fn ast_edit_view() -> ToolView {
    tool_of(
        "ast_edit"@,
        "AST structural code replace. Rewrites code matching `pat` to `out` using AST-aware replacement."@,
        schema_of(
            with_property(
                properties_of(ast_edit_params()),
                "paths"@,
                text_list("Files, dirs, or globs."@, "File, dir, or glob."@),
            ),
            Some(seq!["pat"@, "out"@, "paths"@]),
        ),
        AST_EDIT,
        false,
        Some(60000),
    )
}

/// The tool `ast_edit`.
pub fn ast_edit_tool() -> (r: Tool)
    ensures
        r@ == ast_edit_view(),
{
    let params: Vec<Param> = vec![
        ("pat", PropertyType::String, "AST pattern."),
        ("out", PropertyType::String, "Replacement pattern."),
        ("lang", PropertyType::String, "Language override."),
    ];
    assert(params_view(params@) =~= ast_edit_params());
    let mut properties = make_properties(&params);
    add_property(
        &mut properties,
        "paths",
        make_text_list("Files, dirs, or globs.", "File, dir, or glob."),
    );
    let required = strings(&["pat", "out", "paths"]);
    assert(views(required@) =~= seq!["pat"@, "out"@, "paths"@]);
    let schema = make_schema(properties, Some(required));
    make_tool(
        "ast_edit",
        "AST structural code replace. Rewrites code matching `pat` to `out` using AST-aware replacement.",
        schema,
        AST_EDIT,
        false,
        Some(60000),
    )
}

// ---------------------------------------------------------------------------
// `mcp_call`
// ---------------------------------------------------------------------------

/// What `mcp_call` takes, but for the arguments of the call.
pub open spec fn mcp_call_params() -> Seq<ParamView> {
    seq![
        ("tool"@, PropertyType::String, "Name of the MCP tool to call"@),
        ("server_index"@, PropertyType::Integer, "Server index (default: 0)"@),
    ]
}

/// An object with any members.
pub open spec fn any_object(description: Seq<char>) -> PropertyView {
    PropertyView {
        additional_properties: Some(AdditionalView::Boolean(true)),
        ..plain_property(PropertyType::Object, description)
    }
}

/// The tool `mcp_call`.
pub open spec fn mcp_call_view() -> ToolView {
    tool_of(
        "mcp_call"@,
        "Call a tool on a connected MCP server"@,
        schema_of(
            with_property(
                properties_of(mcp_call_params()),
                "arguments"@,
                any_object("JSON arguments for the tool"@),
            ),
            Some(seq!["tool"@, "arguments"@]),
        ),
        MCP_CALL,
        true,
        None,
    )
}

/// The tool `mcp_call`.
pub fn mcp_call_tool() -> (r: Tool)
    ensures
        r@ == mcp_call_view(),
{
    let params: Vec<Param> = vec![
        ("tool", PropertyType::String, "Name of the MCP tool to call"),
        ("server_index", PropertyType::Integer, "Server index (default: 0)"),
    ];
    assert(params_view(params@) =~= mcp_call_params());
    let mut properties = make_properties(&params);
    let mut arguments = prop(PropertyType::Object, "JSON arguments for the tool");
    arguments.additional_properties = Some(ToolAdditionalProperties::Boolean(true));
    assert(arguments@ == any_object("JSON arguments for the tool"@));
    add_property(&mut properties, "arguments", arguments);
    let required = strings(&["tool", "arguments"]);
    assert(views(required@) =~= seq!["tool"@, "arguments"@]);
    let schema = make_schema(properties, Some(required));
    make_tool(
        "mcp_call",
        "Call a tool on a connected MCP server",
        schema,
        MCP_CALL,
        true,
        None,
    )
}

// ---------------------------------------------------------------------------
// Packages
// ---------------------------------------------------------------------------

/// The `git` tool package.
#[derive(Clone, Copy, Debug)]
pub struct GitToolsPackage;

/// The package `git`.
pub open spec fn git_package() -> PackageView {
    package_of(
        "git"@,
        "Git 版本控制工具"@,
        true,
        seq![git_status_view(), git_diff_view(), git_log_view(), git_branch_view(), git_commit_view(), git_add_view()],
        Some(GIT_INIT),
        "vcs"@,
        seq!["git"@, "vcs"@],
    )
}

impl GitToolsPackage {
    /// Construct the package.
    pub fn new() -> (r: ToolPackage)
        ensures
            r@ == git_package(),
    {
        let mut tools: Vec<Tool> = Vec::new();
        tools.push(git_status_tool());
        tools.push(git_diff_tool());
        tools.push(git_log_tool());
        tools.push(git_branch_tool());
        tools.push(git_commit_tool());
        tools.push(git_add_tool());
        assert(tools_view(tools@) =~= git_package().tools);
        let tags = strings(&["git", "vcs"]);
        assert(views(tags@) =~= seq!["git"@, "vcs"@]);
        make_package(
            "git",
            "Git 版本控制工具",
            true,
            tools,
            Some(GIT_INIT),
            "vcs",
            tags,
        )
    }
}

impl Default for GitToolsPackage {
    fn default() -> (r: Self)
        ensures
            r == GitToolsPackage,
    {
        GitToolsPackage
    }
}

/// The `file` tool package.
#[derive(Clone, Copy, Debug)]
pub struct FileToolsPackage;

/// The package `file`.
pub open spec fn file_package() -> PackageView {
    package_of(
        "file"@,
        "文件操作工具：读取、写入、列表、删除、搜索、查找"@,
        false,
        seq![file_read_view(), file_write_view(), file_list_view(), file_delete_view(), file_search_view(), file_find_view()],
        None,
        "filesystem"@,
        seq!["file"@, "io"@],
    )
}

impl FileToolsPackage {
    /// Construct the package.
    pub fn new() -> (r: ToolPackage)
        ensures
            r@ == file_package(),
    {
        let mut tools: Vec<Tool> = Vec::new();
        tools.push(file_read_tool());
        tools.push(file_write_tool());
        tools.push(file_list_tool());
        tools.push(file_delete_tool());
        tools.push(file_search_tool());
        tools.push(file_find_tool());
        assert(tools_view(tools@) =~= file_package().tools);
        let tags = strings(&["file", "io"]);
        assert(views(tags@) =~= seq!["file"@, "io"@]);
        make_package(
            "file",
            "文件操作工具：读取、写入、列表、删除、搜索、查找",
            false,
            tools,
            None,
            "filesystem",
            tags,
        )
    }
}

impl Default for FileToolsPackage {
    fn default() -> (r: Self)
        ensures
            r == FileToolsPackage,
    {
        FileToolsPackage
    }
}

/// The `http` tool package.
#[derive(Clone, Copy, Debug)]
pub struct HttpToolsPackage;

/// The package `http`.
pub open spec fn http_package() -> PackageView {
    package_of(
        "http"@,
        "HTTP 工具：发起 HTTP/HTTPS 请求"@,
        false,
        seq![http_fetch_view()],
        None,
        "network"@,
        seq!["http"@, "fetch"@, "api"@],
    )
}

impl HttpToolsPackage {
    /// Construct the package.
    pub fn new() -> (r: ToolPackage)
        ensures
            r@ == http_package(),
    {
        let mut tools: Vec<Tool> = Vec::new();
        tools.push(http_fetch_tool());
        assert(tools_view(tools@) =~= http_package().tools);
        let tags = strings(&["http", "fetch", "api"]);
        assert(views(tags@) =~= seq!["http"@, "fetch"@, "api"@]);
        make_package(
            "http",
            "HTTP 工具：发起 HTTP/HTTPS 请求",
            false,
            tools,
            None,
            "network",
            tags,
        )
    }
}

impl Default for HttpToolsPackage {
    fn default() -> (r: Self)
        ensures
            r == HttpToolsPackage,
    {
        HttpToolsPackage
    }
}

/// The `shell` tool package.
#[derive(Clone, Copy, Debug)]
pub struct ShellToolsPackage;

/// The package `shell`.
pub open spec fn shell_package() -> PackageView {
    package_of(
        "shell"@,
        "Shell 命令执行工具"@,
        true,
        seq![shell_exec_view(), shell_spawn_view()],
        None,
        "system"@,
        seq!["shell"@, "process"@],
    )
}

impl ShellToolsPackage {
    /// Construct the package.
    pub fn new() -> (r: ToolPackage)
        ensures
            r@ == shell_package(),
    {
        let mut tools: Vec<Tool> = Vec::new();
        tools.push(shell_exec_tool());
        tools.push(shell_spawn_tool());
        assert(tools_view(tools@) =~= shell_package().tools);
        let tags = strings(&["shell", "process"]);
        assert(views(tags@) =~= seq!["shell"@, "process"@]);
        make_package(
            "shell",
            "Shell 命令执行工具",
            true,
            tools,
            None,
            "system",
            tags,
        )
    }
}

impl Default for ShellToolsPackage {
    fn default() -> (r: Self)
        ensures
            r == ShellToolsPackage,
    {
        ShellToolsPackage
    }
}

/// The `todo` tool package.
#[derive(Clone, Copy, Debug)]
pub struct TodoToolsPackage;

/// The package `todo`.
pub open spec fn todo_package() -> PackageView {
    package_of(
        "todo"@,
        "Todo 列表管理（原子批量操作）"@,
        false,
        seq![todo_view()],
        None,
        "session"@,
        seq!["todo"@, "task"@],
    )
}

impl TodoToolsPackage {
    /// Construct the package.
    pub fn new() -> (r: ToolPackage)
        ensures
            r@ == todo_package(),
    {
        let mut tools: Vec<Tool> = Vec::new();
        tools.push(todo_tool());
        assert(tools_view(tools@) =~= todo_package().tools);
        let tags = strings(&["todo", "task"]);
        assert(views(tags@) =~= seq!["todo"@, "task"@]);
        make_package(
            "todo",
            "Todo 列表管理（原子批量操作）",
            false,
            tools,
            None,
            "session",
            tags,
        )
    }
}

impl Default for TodoToolsPackage {
    fn default() -> (r: Self)
        ensures
            r == TodoToolsPackage,
    {
        TodoToolsPackage
    }
}

/// The `edit` tool package.
#[derive(Clone, Copy, Debug)]
pub struct EditToolsPackage;

/// The package `edit`.
pub open spec fn edit_package() -> PackageView {
    package_of(
        "edit"@,
        "文件编辑工具"@,
        false,
        seq![file_edit_view()],
        None,
        "file"@,
        seq!["edit"@, "file"@, "patch"@],
    )
}

impl EditToolsPackage {
    /// Construct the package.
    pub fn new() -> (r: ToolPackage)
        ensures
            r@ == edit_package(),
    {
        let mut tools: Vec<Tool> = Vec::new();
        tools.push(file_edit_tool());
        assert(tools_view(tools@) =~= edit_package().tools);
        let tags = strings(&["edit", "file", "patch"]);
        assert(views(tags@) =~= seq!["edit"@, "file"@, "patch"@]);
        make_package(
            "edit",
            "文件编辑工具",
            false,
            tools,
            None,
            "file",
            tags,
        )
    }
}

impl Default for EditToolsPackage {
    fn default() -> (r: Self)
        ensures
            r == EditToolsPackage,
    {
        EditToolsPackage
    }
}

/// The `eval` tool package.
#[derive(Clone, Copy, Debug)]
pub struct EvalToolsPackage;

/// The package `eval`.
pub open spec fn eval_package() -> PackageView {
    package_of(
        "eval"@,
        "Python 代码执行工具：一次性执行或持久化 REPL 会话"@,
        true,
        seq![eval_exec_view()],
        None,
        "code"@,
        seq!["python"@, "eval"@, "repl"@],
    )
}

impl EvalToolsPackage {
    /// Construct the package.
    pub fn new() -> (r: ToolPackage)
        ensures
            r@ == eval_package(),
    {
        let mut tools: Vec<Tool> = Vec::new();
        tools.push(eval_exec_tool());
        assert(tools_view(tools@) =~= eval_package().tools);
        let tags = strings(&["python", "eval", "repl"]);
        assert(views(tags@) =~= seq!["python"@, "eval"@, "repl"@]);
        make_package(
            "eval",
            "Python 代码执行工具：一次性执行或持久化 REPL 会话",
            true,
            tools,
            None,
            "code",
            tags,
        )
    }
}

impl Default for EvalToolsPackage {
    fn default() -> (r: Self)
        ensures
            r == EvalToolsPackage,
    {
        EvalToolsPackage
    }
}

/// The `ast` tool package.
#[derive(Clone, Copy, Debug)]
pub struct AstToolsPackage;

/// The package `ast`.
pub open spec fn ast_package() -> PackageView {
    package_of(
        "ast"@,
        "AST 结构代码搜索和替换工具"@,
        false,
        seq![ast_grep_view(), ast_edit_view()],
        None,
        "code"@,
        seq!["ast"@, "search"@, "replace"@],
    )
}

impl AstToolsPackage {
    /// Construct the package.
    pub fn new() -> (r: ToolPackage)
        ensures
            r@ == ast_package(),
    {
        let mut tools: Vec<Tool> = Vec::new();
        tools.push(ast_grep_tool());
        tools.push(ast_edit_tool());
        assert(tools_view(tools@) =~= ast_package().tools);
        let tags = strings(&["ast", "search", "replace"]);
        assert(views(tags@) =~= seq!["ast"@, "search"@, "replace"@]);
        make_package(
            "ast",
            "AST 结构代码搜索和替换工具",
            false,
            tools,
            None,
            "code",
            tags,
        )
    }
}

impl Default for AstToolsPackage {
    fn default() -> (r: Self)
        ensures
            r == AstToolsPackage,
    {
        AstToolsPackage
    }
}

/// The `browser` tool package.
#[derive(Clone, Copy, Debug)]
pub struct BrowserToolsPackage;

/// The package `browser`.
pub open spec fn browser_package() -> PackageView {
    package_of(
        "browser"@,
        "浏览器自动化工具"@,
        false,
        seq![browser_view()],
        None,
        "browser"@,
        seq!["browser"@, "playwright"@],
    )
}

impl BrowserToolsPackage {
    /// Construct the package.
    pub fn new() -> (r: ToolPackage)
        ensures
            r@ == browser_package(),
    {
        let mut tools: Vec<Tool> = Vec::new();
        tools.push(browser_tool());
        assert(tools_view(tools@) =~= browser_package().tools);
        let tags = strings(&["browser", "playwright"]);
        assert(views(tags@) =~= seq!["browser"@, "playwright"@]);
        make_package(
            "browser",
            "浏览器自动化工具",
            false,
            tools,
            None,
            "browser",
            tags,
        )
    }
}

impl Default for BrowserToolsPackage {
    fn default() -> (r: Self)
        ensures
            r == BrowserToolsPackage,
    {
        BrowserToolsPackage
    }
}

/// The `mcp` tool package.
#[derive(Clone, Copy, Debug)]
pub struct McpToolsPackage;

/// The package `mcp`.
pub open spec fn mcp_package() -> PackageView {
    package_of(
        "mcp"@,
        "MCP protocol: connect to servers, list and call tools"@,
        false,
        seq![mcp_list_view(), mcp_connect_view(), mcp_call_view()],
        None,
        "protocol"@,
        seq!["mcp"@, "protocol"@],
    )
}

impl McpToolsPackage {
    /// Construct the package.
    pub fn new() -> (r: ToolPackage)
        ensures
            r@ == mcp_package(),
    {
        let mut tools: Vec<Tool> = Vec::new();
        tools.push(mcp_list_tool());
        tools.push(mcp_connect_tool());
        tools.push(mcp_call_tool());
        assert(tools_view(tools@) =~= mcp_package().tools);
        let tags = strings(&["mcp", "protocol"]);
        assert(views(tags@) =~= seq!["mcp"@, "protocol"@]);
        make_package(
            "mcp",
            "MCP protocol: connect to servers, list and call tools",
            false,
            tools,
            None,
            "protocol",
            tags,
        )
    }
}

impl Default for McpToolsPackage {
    fn default() -> (r: Self)
        ensures
            r == McpToolsPackage,
    {
        McpToolsPackage
    }
}

/// The `playwright` tool package.
#[derive(Clone, Copy, Debug)]
pub struct PlaywrightToolsPackage;

/// The package `playwright`.
pub open spec fn playwright_package() -> PackageView {
    package_of(
        "playwright"@,
        "Playwright browser automation: screenshots and script execution"@,
        false,
        seq![picture_view(), script_view()],
        None,
        "testing"@,
        seq!["playwright"@, "screenshot"@, "browser"@],
    )
}

impl PlaywrightToolsPackage {
    /// Construct the package.
    pub fn new() -> (r: ToolPackage)
        ensures
            r@ == playwright_package(),
    {
        let mut tools: Vec<Tool> = Vec::new();
        tools.push(picture_tool());
        tools.push(script_tool());
        assert(tools_view(tools@) =~= playwright_package().tools);
        let tags = strings(&["playwright", "screenshot", "browser"]);
        assert(views(tags@) =~= seq!["playwright"@, "screenshot"@, "browser"@]);
        make_package(
            "playwright",
            "Playwright browser automation: screenshots and script execution",
            false,
            tools,
            None,
            "testing",
            tags,
        )
    }
}

impl Default for PlaywrightToolsPackage {
    fn default() -> (r: Self)
        ensures
            r == PlaywrightToolsPackage,
    {
        PlaywrightToolsPackage
    }
}

/// The `screenshot` tool package.
#[derive(Clone, Copy, Debug, PartialEq, Eq, Structural)]
pub struct ScreenshotToolsPackage;

impl ScreenshotToolsPackage {
    /// Construct the package.
    pub fn new() -> (r: Self)
        ensures
            r == ScreenshotToolsPackage,
    {
        ScreenshotToolsPackage
    }

    /// Its name.
    pub fn name(&self) -> (r: &'static str)
        ensures
            r@ == "screenshot"@,
    {
        "screenshot"
    }

    /// Its tools.
    pub fn tools(&self) -> (r: Vec<Tool>)
        ensures
            tools_view(r@) == seq![screenshot_view()],
    {
        let mut tools: Vec<Tool> = Vec::new();
        tools.push(screenshot_tool());
        assert(tools_view(tools@) =~= seq![screenshot_view()]);
        tools
    }
}

/// Adds `search` to a package.
pub fn add_file_search(pkg: &mut ToolPackage)
    ensures
        final(pkg)@ == (PackageView {
            tools: old(pkg)@.tools.push(file_search_view()),
            ..old(pkg)@
        }),
{
    let ghost before = pkg@;
    pkg.tools.push(file_search_tool());
    assert(pkg@.tools =~= before.tools.push(file_search_view()));
}

/// Adds `find` to a package.
pub fn add_file_find(pkg: &mut ToolPackage)
    ensures
        final(pkg)@ == (PackageView {
            tools: old(pkg)@.tools.push(file_find_view()),
            ..old(pkg)@
        }),
{
    let ghost before = pkg@;
    pkg.tools.push(file_find_tool());
    assert(pkg@.tools =~= before.tools.push(file_find_view()));
}

/// The models of packages.
pub open spec fn packages_view(v: Seq<ToolPackage>) -> Seq<PackageView> {
    v.map_values(|p: ToolPackage| p@)
}

/// Aggregate of every built-in package.
pub fn builtin_tool_packages() -> (r: Vec<ToolPackage>)
    ensures
        packages_view(r@) == seq![
            git_package(),
            file_package(),
            http_package(),
            shell_package(),
            todo_package(),
        ],
{
    let mut r: Vec<ToolPackage> = Vec::new();
    r.push(GitToolsPackage::new());
    r.push(FileToolsPackage::new());
    r.push(HttpToolsPackage::new());
    r.push(ShellToolsPackage::new());
    r.push(TodoToolsPackage::new());
    assert(packages_view(r@) =~= seq![
        git_package(),
        file_package(),
        http_package(),
        shell_package(),
        todo_package(),
    ]);
    r
}

// ---------------------------------------------------------------------------
// What the packages hold
// ---------------------------------------------------------------------------

/// The package `git` holds its tools under their names, in order, each with its handler, and
/// with what it must be given.
pub proof fn law_git_package()
    ensures
        git_package().name == "git"@,
        git_package().tools.len() == 6,
        git_package().namespace matches Some(ns) && ns.prefix == "git"@ && ns.auto_prefix
            && ns.separator == '.',
        git_package().on_init == Some(GIT_INIT),
        ({
            let t = git_package().tools[0];
            &&& t.name == "status"@
            &&& t.handler == GIT_STATUS
            &&& t.concurrency_safe
            &&& t.timeout == Some(30000u64)
            &&& t.input_schema.required is None
        }),
        ({
            let t = git_package().tools[1];
            &&& t.name == "diff"@
            &&& t.handler == GIT_DIFF
            &&& t.concurrency_safe
            &&& t.timeout == Some(30000u64)
            &&& t.input_schema.required is None
        }),
        ({
            let t = git_package().tools[2];
            &&& t.name == "log"@
            &&& t.handler == GIT_LOG
            &&& t.concurrency_safe
            &&& t.timeout == Some(30000u64)
            &&& t.input_schema.required is None
        }),
        ({
            let t = git_package().tools[3];
            &&& t.name == "branch"@
            &&& t.handler == GIT_BRANCH
            &&& t.concurrency_safe
            &&& t.timeout == Some(30000u64)
            &&& t.input_schema.required is None
        }),
        ({
            let t = git_package().tools[4];
            &&& t.name == "commit"@
            &&& t.handler == GIT_COMMIT
            &&& !t.concurrency_safe
            &&& t.timeout == Some(30000u64)
            &&& t.input_schema.required == Some(seq!["message"@])
        }),
        ({
            let t = git_package().tools[5];
            &&& t.name == "add"@
            &&& t.handler == GIT_ADD
            &&& !t.concurrency_safe
            &&& t.timeout == Some(30000u64)
            &&& t.input_schema.required is None
        }),
{
    assert(names_of(git_commit_required()) =~= seq!["message"@]);
}

/// The package `file` holds its tools under their names, in order, each with its handler, and
/// with what it must be given.
pub proof fn law_file_package()
    ensures
        file_package().name == "file"@,
        file_package().tools.len() == 6,
        file_package().namespace is None,
        file_package().on_init is None,
        ({
            let t = file_package().tools[0];
            &&& t.name == "read"@
            &&& t.handler == FILE_READ
            &&& t.concurrency_safe
            &&& t.timeout == Some(30000u64)
            &&& t.input_schema.required is None
        }),
        ({
            let t = file_package().tools[1];
            &&& t.name == "write"@
            &&& t.handler == FILE_WRITE
            &&& !t.concurrency_safe
            &&& t.timeout == Some(10000u64)
            &&& t.input_schema.required == Some(seq!["path"@, "content"@])
        }),
        ({
            let t = file_package().tools[2];
            &&& t.name == "list"@
            &&& t.handler == FILE_LIST
            &&& t.concurrency_safe
            &&& t.timeout == Some(30000u64)
            &&& t.input_schema.required == Some(seq!["path"@])
        }),
        ({
            let t = file_package().tools[3];
            &&& t.name == "delete"@
            &&& t.handler == FILE_DELETE
            &&& !t.concurrency_safe
            &&& t.timeout == Some(10000u64)
            &&& t.input_schema.required == Some(seq!["path"@])
        }),
        ({
            let t = file_package().tools[4];
            &&& t.name == "search"@
            &&& t.handler == FILE_SEARCH
            &&& t.concurrency_safe
            &&& t.timeout == Some(60000u64)
            &&& t.input_schema.required == Some(seq!["pattern"@])
        }),
        ({
            let t = file_package().tools[5];
            &&& t.name == "find"@
            &&& t.handler == FILE_FIND
            &&& t.concurrency_safe
            &&& t.timeout == Some(60000u64)
            &&& t.input_schema.required == Some(seq!["paths"@])
        }),
{
    assert(names_of(file_write_required()) =~= seq!["path"@, "content"@]);
    assert(names_of(file_list_required()) =~= seq!["path"@]);
    assert(names_of(file_delete_required()) =~= seq!["path"@]);
    assert(names_of(file_search_required()) =~= seq!["pattern"@]);
    assert(names_of(file_find_required()) =~= seq!["paths"@]);
}

/// The package `http` holds its tools under their names, in order, each with its handler, and
/// with what it must be given.
pub proof fn law_http_package()
    ensures
        http_package().name == "http"@,
        http_package().tools.len() == 1,
        http_package().namespace is None,
        http_package().on_init is None,
        ({
            let t = http_package().tools[0];
            &&& t.name == "fetch"@
            &&& t.handler == HTTP_FETCH
            &&& t.concurrency_safe
            &&& t.timeout == Some(60000u64)
            &&& t.input_schema.required == Some(seq!["url"@])
        }),
{
    assert(names_of(http_fetch_required()) =~= seq!["url"@]);
}

/// The package `shell` holds its tools under their names, in order, each with its handler, and
/// with what it must be given.
pub proof fn law_shell_package()
    ensures
        shell_package().name == "shell"@,
        shell_package().tools.len() == 2,
        shell_package().namespace matches Some(ns) && ns.prefix == "shell"@ && ns.auto_prefix
            && ns.separator == '.',
        shell_package().on_init is None,
        ({
            let t = shell_package().tools[0];
            &&& t.name == "exec"@
            &&& t.handler == SHELL_EXEC
            &&& !t.concurrency_safe
            &&& t.timeout == Some(300000u64)
            &&& t.input_schema.required == Some(seq!["command"@])
        }),
        ({
            let t = shell_package().tools[1];
            &&& t.name == "spawn"@
            &&& t.handler == SHELL_SPAWN
            &&& !t.concurrency_safe
            &&& t.timeout == Some(60000u64)
            &&& t.input_schema.required == Some(seq!["command"@])
        }),
{
    assert(names_of(shell_exec_required()) =~= seq!["command"@]);
    assert(names_of(shell_spawn_required()) =~= seq!["command"@]);
}

/// The package `todo` holds its tools under their names, in order, each with its handler, and
/// with what it must be given.
pub proof fn law_todo_package()
    ensures
        todo_package().name == "todo"@,
        todo_package().tools.len() == 1,
        todo_package().namespace is None,
        todo_package().on_init is None,
        ({
            let t = todo_package().tools[0];
            &&& t.name == "todo"@
            &&& t.handler == TODO
            &&& !t.concurrency_safe
            &&& t.timeout == Some(10000u64)
            &&& t.input_schema.required == Some(seq!["ops"@])
        }),
{
    assert(names_of(todo_required()) =~= seq!["ops"@]);
}

/// The package `edit` holds its tools under their names, in order, each with its handler, and
/// with what it must be given.
pub proof fn law_edit_package()
    ensures
        edit_package().name == "edit"@,
        edit_package().tools.len() == 1,
        edit_package().namespace is None,
        edit_package().on_init is None,
        ({
            let t = edit_package().tools[0];
            &&& t.name == "edit"@
            &&& t.handler == EDIT
            &&& !t.concurrency_safe
            &&& t.timeout == Some(30000u64)
            &&& t.input_schema.required == Some(seq!["path"@, "ops"@])
        }),
{
    assert(names_of(file_edit_required()) =~= seq!["path"@, "ops"@]);
}

/// The package `eval` holds its tools under their names, in order, each with its handler, and
/// with what it must be given.
pub proof fn law_eval_package()
    ensures
        eval_package().name == "eval"@,
        eval_package().tools.len() == 1,
        eval_package().namespace matches Some(ns) && ns.prefix == "eval"@ && ns.auto_prefix
            && ns.separator == '.',
        eval_package().on_init is None,
        ({
            let t = eval_package().tools[0];
            &&& t.name == "exec"@
            &&& t.handler == EVAL_EXEC
            &&& !t.concurrency_safe
            &&& t.timeout == Some(305000u64)
            &&& t.input_schema.required == Some(seq!["code"@])
        }),
{
    assert(names_of(eval_exec_required()) =~= seq!["code"@]);
}

/// The package `ast` holds its tools under their names, in order, each with its handler, and
/// with what it must be given.
pub proof fn law_ast_package()
    ensures
        ast_package().name == "ast"@,
        ast_package().tools.len() == 2,
        ast_package().namespace is None,
        ast_package().on_init is None,
        ({
            let t = ast_package().tools[0];
            &&& t.name == "grep"@
            &&& t.handler == AST_GREP
            &&& t.concurrency_safe
            &&& t.timeout == Some(60000u64)
            &&& t.input_schema.required == Some(seq!["pat"@, "paths"@])
        }),
        ({
            let t = ast_package().tools[1];
            &&& t.name == "ast_edit"@
            &&& t.handler == AST_EDIT
            &&& !t.concurrency_safe
            &&& t.timeout == Some(60000u64)
            &&& t.input_schema.required == Some(seq!["pat"@, "out"@, "paths"@])
        }),
{
}

/// The package `browser` holds its tools under their names, in order, each with its handler, and
/// with what it must be given.
pub proof fn law_browser_package()
    ensures
        browser_package().name == "browser"@,
        browser_package().tools.len() == 1,
        browser_package().namespace is None,
        browser_package().on_init is None,
        ({
            let t = browser_package().tools[0];
            &&& t.name == "browser"@
            &&& t.handler == BROWSER
            &&& !t.concurrency_safe
            &&& t.timeout == Some(120000u64)
            &&& t.input_schema.required == Some(seq!["action"@])
        }),
{
    assert(names_of(browser_required()) =~= seq!["action"@]);
}

/// The package `mcp` holds its tools under their names, in order, each with its handler, and
/// with what it must be given.
pub proof fn law_mcp_package()
    ensures
        mcp_package().name == "mcp"@,
        mcp_package().tools.len() == 3,
        mcp_package().namespace is None,
        mcp_package().on_init is None,
        ({
            let t = mcp_package().tools[0];
            &&& t.name == "mcp_list"@
            &&& t.handler == MCP_LIST
            &&& t.concurrency_safe
            &&& t.timeout is None
            &&& t.input_schema.required is None
        }),
        ({
            let t = mcp_package().tools[1];
            &&& t.name == "mcp_connect"@
            &&& t.handler == MCP_CONNECT
            &&& t.concurrency_safe
            &&& t.timeout is None
            &&& t.input_schema.required == Some(seq!["command"@])
        }),
        ({
            let t = mcp_package().tools[2];
            &&& t.name == "mcp_call"@
            &&& t.handler == MCP_CALL
            &&& t.concurrency_safe
            &&& t.timeout is None
            &&& t.input_schema.required == Some(seq!["tool"@, "arguments"@])
        }),
{
    assert(names_of(mcp_connect_required()) =~= seq!["command"@]);
}

/// The package `playwright` holds its tools under their names, in order, each with its handler, and
/// with what it must be given.
pub proof fn law_playwright_package()
    ensures
        playwright_package().name == "playwright"@,
        playwright_package().tools.len() == 2,
        playwright_package().namespace is None,
        playwright_package().on_init is None,
        ({
            let t = playwright_package().tools[0];
            &&& t.name == "screenshot"@
            &&& t.handler == PLAYWRIGHT_PICTURE
            &&& t.concurrency_safe
            &&& t.timeout == Some(30000u64)
            &&& t.input_schema.required is None
        }),
        ({
            let t = playwright_package().tools[1];
            &&& t.name == "playwright_script"@
            &&& t.handler == PLAYWRIGHT_SCRIPT
            &&& t.concurrency_safe
            &&& t.timeout == Some(60000u64)
            &&& t.input_schema.required == Some(seq!["script"@])
        }),
{
    assert(names_of(script_required()) =~= seq!["script"@]);
}

/// The tool `screenshot` has its handler, and says what it must be given.
pub proof fn law_screenshot()
    ensures
        screenshot_view().name == "screenshot"@,
        screenshot_view().handler == SCREENSHOT,
        screenshot_view().concurrency_safe,
        screenshot_view().timeout is None,
        screenshot_view().input_schema.required == Some(seq!["url"@]),
{
    assert(names_of(screenshot_required()) =~= seq!["url"@]);
}

} // verus!
