//! Launch profiles and the built-in hint catalogue.

use vstd::prelude::*;

use vstd::string::StringExecFns;

verus! {

/// A stored launch profile: a reusable description of how to start a
/// session. `env_vars` is an association list with unique names.
#[derive(Debug)]
pub struct ConfigProfile {
    pub id: String,
    pub name: String,
    pub description: Option<String>,
    pub working_directory: String,
    pub claude_args: Vec<String>,
    pub env_vars: Vec<(String, String)>,
    pub is_default: bool,
}

/// The mathematical value of a [`ConfigProfile`].
#[verifier::ext_equal]
pub ghost struct ProfileView {
    pub id: Seq<char>,
    pub name: Seq<char>,
    pub description: Option<Seq<char>>,
    pub working_directory: Seq<char>,
    pub claude_args: Seq<Seq<char>>,
    pub env_vars: Seq<(Seq<char>, Seq<char>)>,
    pub is_default: bool,
}

impl View for ConfigProfile {
    type V = ProfileView;

    open spec fn view(&self) -> ProfileView {
        ProfileView {
            id: self.id@,
            name: self.name@,
            description: self.description.deep_view(),
            working_directory: self.working_directory@,
            claude_args: self.claude_args.deep_view(),
            env_vars: self.env_vars.deep_view(),
            is_default: self.is_default,
        }
    }
}

impl DeepView for ConfigProfile {
    type V = ProfileView;

    open spec fn deep_view(&self) -> ProfileView {
        self.view()
    }
}

impl Clone for ConfigProfile {
    /// A clone carries exactly the same profile value.
    fn clone(&self) -> (r: Self)
        ensures
            r@ == self@,
    {
        ConfigProfile {
            id: self.id.clone(),
            name: self.name.clone(),
            description: crate::strutil::clone_opt_string(&self.description),
            working_directory: self.working_directory.clone(),
            claude_args: crate::strutil::clone_string_vec(&self.claude_args),
            env_vars: crate::strutil::clone_env_vec(&self.env_vars),
            is_default: self.is_default,
        }
    }
}

/// One suggested prompt or flag, shown to the user as a hint.
#[derive(Debug)]
pub struct Hint {
    pub title: String,
    pub command: String,
    pub description: String,
}

/// A named group of hints with its icon.
#[derive(Debug)]
pub struct HintCategory {
    pub name: String,
    pub icon: String,
    pub hints: Vec<Hint>,
}

/// Builds one hint.
fn hint(title: &str, command: &str, description: &str) -> (r: Hint)
    ensures
        r.title@ == title@,
        r.command@ == command@,
        r.description@ == description@,
{
    Hint { title: title.to_owned(), command: command.to_owned(), description: description.to_owned() }
}

/// The built-in hint catalogue: seven categories with fixed names and
/// entry counts.
pub fn get_default_hints() -> (r: Vec<HintCategory>)
    ensures
        r@.len() == 7,
        r@[0].name@ == "Top 10 Commands"@ && r@[0].hints@.len() == 10,
        r@[1].name@ == "Getting Started"@ && r@[1].hints@.len() == 4,
        r@[2].name@ == "File Operations"@ && r@[2].hints@.len() == 4,
        r@[3].name@ == "Git Operations"@ && r@[3].hints@.len() == 4,
        r@[4].name@ == "Code Generation"@ && r@[4].hints@.len() == 4,
        r@[5].name@ == "Debugging"@ && r@[5].hints@.len() == 4,
        r@[6].name@ == "CLI Flags"@ && r@[6].hints@.len() == 6,
{
    let mut top: Vec<Hint> = Vec::new();
    top.push(hint("Fix this error", "Fix this error: [paste error]", "Quickly fix any error by pasting it"));
    top.push(hint("Explain this code", "Explain what this code does: [paste code]", "Get a clear explanation of any code"));
    top.push(hint("Write tests", "Write unit tests for [filename]", "Generate comprehensive tests"));
    top.push(hint("Refactor this", "Refactor this code to be cleaner: [paste code]", "Improve code quality and readability"));
    top.push(hint("Add comments", "Add documentation comments to [filename]", "Document your code automatically"));
    top.push(hint("Create component", "Create a React component for [description]", "Generate React/Vue/Angular components"));
    top.push(hint("API endpoint", "Create an API endpoint that [description]", "Build REST/GraphQL endpoints"));
    top.push(hint("Debug this", "Help me debug why [describe issue]", "Get help debugging tricky issues"));
    top.push(hint("Optimize performance", "Optimize the performance of [filename]", "Make your code faster"));
    top.push(hint("Convert format", "Convert this [from format] to [to format]", "Convert between file formats, languages"));

    let mut starting: Vec<Hint> = Vec::new();
    starting.push(hint("Start the assistant", "assistant", "Launch the assistant CLI in interactive mode"));
    starting.push(hint("With Custom Model", "assistant --model large", "Start with a specific model size"));
    starting.push(hint("Skip Permissions", "assistant --dangerously-skip-permissions", "Skip permission prompts (use with caution)"));
    starting.push(hint("Resume Session", "assistant --resume", "Continue from your last session"));

    let mut files: Vec<Hint> = Vec::new();
    files.push(hint("Read File", "Read the contents of [filename]", "Ask the assistant to read and analyze a file"));
    files.push(hint("Create File", "Create a new file called [name] with [content]", "Ask the assistant to create a new file"));
    files.push(hint("Edit File", "Edit [filename] and [describe changes]", "Ask the assistant to modify an existing file"));
    files.push(hint("Find in Files", "Find all files that contain [pattern]", "Search across your codebase"));

    let mut git: Vec<Hint> = Vec::new();
    git.push(hint("Git Status", "Show me the git status", "Check repository status"));
    git.push(hint("Create Commit", "Commit these changes with an appropriate message", "Stage and commit changes"));
    git.push(hint("Create Branch", "Create a new branch called [name]", "Create and switch to a new branch"));
    git.push(hint("Create PR", "Create a pull request for these changes", "Open a pull request on GitHub"));

    let mut codegen: Vec<Hint> = Vec::new();
    codegen.push(hint("Generate Function", "Write a function that [description]", "Generate code based on description"));
    codegen.push(hint("Refactor Code", "Refactor [filename] to [improvement]", "Improve existing code"));
    codegen.push(hint("Add Tests", "Write tests for [filename/function]", "Generate unit tests"));
    codegen.push(hint("Add Types", "Add TypeScript types to [filename]", "Add type annotations to JavaScript"));

    let mut debugging: Vec<Hint> = Vec::new();
    debugging.push(hint("Find Bug", "Find the bug in [filename]", "Ask the assistant to identify issues"));
    debugging.push(hint("Explain Error", "Explain this error: [error message]", "Get explanation for error messages"));
    debugging.push(hint("Fix Issue", "Fix the [issue description] in [filename]", "Ask the assistant to fix a specific problem"));
    debugging.push(hint("Security Audit", "Check [filename] for security vulnerabilities", "Find potential security issues"));

    let mut flags: Vec<Hint> = Vec::new();
    flags.push(hint("Max Turns", "--max-turns <number>", "Limit conversation turns"));
    flags.push(hint("Output Format", "--output-format json", "Set output format (text, json, stream-json)"));
    flags.push(hint("Verbose Mode", "--verbose", "Enable verbose logging"));
    flags.push(hint("Working Directory", "--cwd /path/to/dir", "Set working directory"));
    flags.push(hint("Allowed Tools", "--allowed-tools Read,Write,Bash", "Restrict available tools"));
    flags.push(hint("Print Cost", "--print-cost", "Show token usage and cost"));

    let mut out: Vec<HintCategory> = Vec::new();
    out.push(HintCategory { name: "Top 10 Commands".to_owned(), icon: "star".to_owned(), hints: top });
    out.push(HintCategory { name: "Getting Started".to_owned(), icon: "rocket".to_owned(), hints: starting });
    out.push(HintCategory { name: "File Operations".to_owned(), icon: "folder".to_owned(), hints: files });
    out.push(HintCategory { name: "Git Operations".to_owned(), icon: "git-branch".to_owned(), hints: git });
    out.push(HintCategory { name: "Code Generation".to_owned(), icon: "code".to_owned(), hints: codegen });
    out.push(HintCategory { name: "Debugging".to_owned(), icon: "bug".to_owned(), hints: debugging });
    out.push(HintCategory { name: "CLI Flags".to_owned(), icon: "terminal".to_owned(), hints: flags });
    out
}

} // verus!
