//! Hooks: checks that a push has to pass.
//!
//! A hook is given a changeset or a file and accepts or rejects it. The
//! code of a scripted hook is run by an interpreter outside this library;
//! what the library holds is the hook itself, what the script is told, and
//! how the script's answer is read.

use vstd::prelude::*;
use vstd::string::StringExecFns;

verus! {

/// The start code of a hook that is run on a changeset.
pub const HOOK_START_CODE_CS: &'static str = "
__hook_start = function(info, arg)
    return __hook_start_base(info, arg, function(arg, ctx)
        local files = {}

        for _, file_data in ipairs(arg) do
            local file = __set_common_file_functions(file_data.path, file_data.type)

            if not file.is_deleted() then
                file.contains_string = function(s) return coroutine.yield(__contains_string(file.path, s)) end
                file.len = function() return coroutine.yield(__file_len(file.path)) end
                file.content = function() return coroutine.yield(__file_content(file.path)) end
            end
            files[#files+1] = file
        end

        ctx.files = files
        ctx.file_content = function(path) return coroutine.yield(__file_content(path)) end
    end)
end
";

/// The start code of a hook that is run on a file.
pub const HOOK_START_CODE_FILE: &'static str = "
__hook_start = function(info, arg)
    return __hook_start_base(info, arg, function(arg, ctx)
        local file = __set_common_file_functions(arg.path, arg.type)

        if not file.is_deleted() then
            file.contains_string = function(s) return coroutine.yield(__contains_string(s)) end
            file.len = function() return coroutine.yield(__file_len()) end
            file.content = function() return coroutine.yield(__file_content()) end
        end
        ctx.file = file
    end)
end
";

/// A hook whose check is a script.
#[derive(Debug, Clone)]
pub struct LuaHook {
    pub name: String,
    /// The code of the hook.
    pub code: String,
}

impl LuaHook {
    /// A hook with the given name and code.
    pub fn new(name: String, code: String) -> (hook: LuaHook)
        ensures
            hook.name == name,
            hook.code == code,
    {
        LuaHook { name, code }
    }

    /// The program that is run for the hook: the start code for the kind of
    /// hook, the common base code, and the hook's own code, in this order.
    pub fn program(&self, start_code: &str, base_code: &str) -> (program: String)
        ensures
            program@ == start_code@ + base_code@ + self.code@,
    {
        let mut program = start_code.to_owned();
        program.append(base_code);
        program.append(self.code.as_str());
        program
    }
}

/// A hook that accepts everything.
#[derive(Debug, Clone)]
pub struct RustHook {
    pub name: String,
}

impl RustHook {
    /// Runs the hook: it accepts.
    pub fn run(&self) -> (execution: HookExecution)
        ensures
            execution is Accepted,
    {
        HookExecution::Accepted
    }
}

/// Why a hook rejected what it was given.
#[derive(Debug, Clone, PartialEq, Eq)]
pub struct HookRejectionInfo {
    /// A short description for summaries.
    pub description: String,
    /// A full explanation.
    pub long_description: String,
}

/// The verdict of a hook.
#[derive(Debug, Clone, PartialEq, Eq)]
pub enum HookExecution {
    Accepted,
    Rejected(HookRejectionInfo),
}

/// Why a hook could not give a verdict.
#[derive(Debug, Clone, PartialEq, Eq)]
pub enum HookError {
    /// The hook failed while it ran.
    RuntimeError(String),
}

/// How a file was changed.
#[derive(Debug, Clone, Copy, PartialEq, Eq, Structural)]
pub enum ChangedFileType {
    Added,
    Deleted,
    Modified,
}

impl ChangedFileType {
    /// The word by which a script knows the kind of change.
    pub open spec fn script_word(self) -> Seq<char> {
        match self {
            ChangedFileType::Added => "added"@,
            ChangedFileType::Deleted => "deleted"@,
            ChangedFileType::Modified => "modified"@,
        }
    }

    /// The word by which a script knows the kind of change.
    pub fn script_name(&self) -> (name: &'static str)
        ensures
            name@ == self.script_word(),
    {
        match self {
            ChangedFileType::Added => "added",
            ChangedFileType::Deleted => "deleted",
            ChangedFileType::Modified => "modified",
        }
    }
}

/// The parents of the changeset that a hook is given, as hash texts.
#[derive(Debug, Clone, PartialEq, Eq)]
pub enum HookChangesetParents {
    Zero,
    One(String),
    Two(String, String),
}

/// What a changeset hook's script is told of the changeset: the name of the
/// repository, the author and the comments, and after them the hash of each
/// parent that the changeset has.
pub open spec fn changeset_info_of(
    repo_name: Seq<char>,
    author: Seq<char>,
    comments: Seq<char>,
    parents: HookChangesetParents,
) -> Seq<(Seq<char>, Seq<char>)> {
    let common = seq![("repo_name"@, repo_name), ("author"@, author), ("comments"@, comments)];
    match parents {
        HookChangesetParents::Zero => common,
        HookChangesetParents::One(p1) => common.push(("parent1_hash"@, p1@)),
        HookChangesetParents::Two(p1, p2) => common.push(("parent1_hash"@, p1@)).push(
            ("parent2_hash"@, p2@),
        ),
    }
}

/// What a changeset hook's script is told of the changeset.
pub fn changeset_info(
    repo_name: &str,
    author: &str,
    comments: &str,
    parents: &HookChangesetParents,
) -> (info: Vec<(String, String)>)
    ensures
        info.deep_view() == changeset_info_of(repo_name@, author@, comments@, *parents),
{
    let mut info: Vec<(String, String)> = Vec::new();
    info.push(("repo_name".to_owned(), repo_name.to_owned()));
    info.push(("author".to_owned(), author.to_owned()));
    info.push(("comments".to_owned(), comments.to_owned()));
    match parents {
        HookChangesetParents::Zero => {},
        HookChangesetParents::One(p1) => {
            info.push(("parent1_hash".to_owned(), p1.clone()));
        },
        HookChangesetParents::Two(p1, p2) => {
            info.push(("parent1_hash".to_owned(), p1.clone()));
            info.push(("parent2_hash".to_owned(), p2.clone()));
        },
    }
    assert(info.deep_view() =~= changeset_info_of(repo_name@, author@, comments@, *parents));
    info
}

/// What a script is told of a file: its path and the kind of change.
pub fn file_info(path: &str, ty: ChangedFileType) -> (info: Vec<(String, String)>)
    ensures
        info.deep_view() == seq![("path"@, path@), ("type"@, ty.script_word())],
{
    let mut info: Vec<(String, String)> = Vec::new();
    info.push(("path".to_owned(), path.to_owned()));
    info.push(("type".to_owned(), ty.script_name().to_owned()));
    assert(info.deep_view() =~= seq![("path"@, path@), ("type"@, ty.script_word())]);
    info
}

/// Reads the answer of a script. The answer holds whether the script
/// accepts, and may hold a short and a long description. An answer without
/// a verdict is a runtime error. An acceptance is the verdict `Accepted`; a
/// rejection carries the descriptions, each empty where the script gave
/// none.
pub fn hook_execution(
    accepted: Option<bool>,
    description: Option<String>,
    long_description: Option<String>,
) -> (r: Result<HookExecution, HookError>)
    ensures
        accepted.is_none() ==> (r matches Err(HookError::RuntimeError(m)) && m@ == "No hook return"@),
        accepted == Some(true) ==> r matches Ok(HookExecution::Accepted),
        accepted == Some(false) ==> (r matches Ok(HookExecution::Rejected(info)) && info.description@
            == (match description {
            Some(d) => d@,
            None => Seq::<char>::empty(),
        }) && info.long_description@ == (match long_description {
            Some(d) => d@,
            None => Seq::<char>::empty(),
        })),
{
    match accepted {
        None => Err(HookError::RuntimeError("No hook return".to_owned())),
        Some(true) => Ok(HookExecution::Accepted),
        Some(false) => {
            let description = match description {
                Some(d) => d,
                None => String::new(),
            };
            let long_description = match long_description {
                Some(d) => d,
                None => String::new(),
            };
            Ok(HookExecution::Rejected(HookRejectionInfo { description, long_description }))
        },
    }
}

} // verus!
