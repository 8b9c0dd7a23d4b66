use vstd::prelude::*;

use crate::model::WorkflowCategory;
use crate::text::{
    chars_of, concat2, contains_seq, has_char, lemma_contains_in_concat, occurs_at, owned, str_contains, str_eq, str_has_char,
    string_from_chars, to_lowercase, spec_lowercase,
};

verus! {

/// The `[workflow_categories]` table of the configuration file.
#[derive(Debug, Clone)]
pub struct WorkflowCategoryConfig {
    pub review: Option<Vec<String>>,
}

/// The configuration file (`config.toml`); every entry is optional.
#[derive(Debug, Clone)]
pub struct FileConfig {
    pub aws_profile: Option<String>,
    pub region: Option<String>,
    pub github_repo: Option<String>,
    pub branch: Option<String>,
    pub workflow_categories: Option<WorkflowCategoryConfig>,
}

impl Default for FileConfig {
    fn default() -> (f: Self)
        ensures
            f.aws_profile is None,
            f.region is None,
            f.github_repo is None,
            f.branch is None,
            f.workflow_categories is None,
    {
        FileConfig {
            aws_profile: None,
            region: None,
            github_repo: None,
            branch: None,
            workflow_categories: None,
        }
    }
}

/// The command-line options.
#[derive(Debug, Clone)]
pub struct CliArgs {
    /// AWS profile name (`--aws-profile`).
    pub aws_profile: Option<String>,
    /// AWS region (`--region`).
    pub region: Option<String>,
    /// GitHub repository, owner/repo (`--github-repo`).
    pub github_repo: Option<String>,
    /// Git branch to filter GitHub Actions runs (`--branch`).
    pub branch: Option<String>,
}

/// The effective configuration.
#[derive(Debug, Clone)]
pub struct Config {
    pub aws_profile: String,
    pub region: String,
    pub github_repo: String,
    /// Git branch to filter GitHub Actions runs (None = all branches).
    pub branch: Option<String>,
    /// Workflow names classified as Review by the configuration file.
    pub review_workflows: Vec<String>,
}

/// Why a configuration could not be formed.
#[derive(Debug, Clone)]
pub enum ConfigError {
    /// Neither `--aws-profile` nor the file gives a profile.
    MissingAwsProfile,
    /// Neither `--region` nor the file gives a region.
    MissingRegion,
    /// Neither `--github-repo` nor the file gives a repository.
    MissingGithubRepo,
    /// The repository is not in owner/repo form.
    InvalidRepoFormat,
    /// The command line was refused (or help was asked for): the
    /// command-line parser's own message, and the exit status it asks for
    /// (0 when the message is help to print, 2 for an error).
    InvalidArguments(String, i32),
}

/// The view of an optional string.
pub open spec fn opt_view(o: Option<String>) -> Option<Seq<char>> {
    match o {
        Some(s) => Some(s@),
        None => None,
    }
}

/// The characters of each string.
pub open spec fn strs_view(v: Seq<String>) -> Seq<Seq<char>> {
    v.map_values(|s: String| s@)
}

/// The command-line options, as plain values.
pub struct CliArgsView {
    pub aws_profile: Option<Seq<char>>,
    pub region: Option<Seq<char>>,
    pub github_repo: Option<Seq<char>>,
    pub branch: Option<Seq<char>>,
}

impl View for CliArgs {
    type V = CliArgsView;

    open spec fn view(&self) -> CliArgsView {
        CliArgsView {
            aws_profile: opt_view(self.aws_profile),
            region: opt_view(self.region),
            github_repo: opt_view(self.github_repo),
            branch: opt_view(self.branch),
        }
    }
}

/// The configuration file, as plain values (the review list flattened:
/// None when either the table or its `review` entry is absent).
pub struct FileConfigView {
    pub aws_profile: Option<Seq<char>>,
    pub region: Option<Seq<char>>,
    pub github_repo: Option<Seq<char>>,
    pub branch: Option<Seq<char>>,
    pub review: Option<Seq<Seq<char>>>,
}

impl View for FileConfig {
    type V = FileConfigView;

    open spec fn view(&self) -> FileConfigView {
        FileConfigView {
            aws_profile: opt_view(self.aws_profile),
            region: opt_view(self.region),
            github_repo: opt_view(self.github_repo),
            branch: opt_view(self.branch),
            review: match self.workflow_categories {
                Some(c) => match c.review {
                    Some(v) => Some(strs_view(v@)),
                    None => None,
                },
                None => None,
            },
        }
    }
}

/// The effective configuration, as plain values.
pub struct ConfigView {
    pub aws_profile: Seq<char>,
    pub region: Seq<char>,
    pub github_repo: Seq<char>,
    pub branch: Option<Seq<char>>,
    pub review_workflows: Seq<Seq<char>>,
}

impl View for Config {
    type V = ConfigView;

    open spec fn view(&self) -> ConfigView {
        ConfigView {
            aws_profile: self.aws_profile@,
            region: self.region@,
            github_repo: self.github_repo@,
            branch: opt_view(self.branch),
            review_workflows: strs_view(self.review_workflows@),
        }
    }
}

/// A configuration error, as plain values.
pub enum ConfigErrorView {
    MissingAwsProfile,
    MissingRegion,
    MissingGithubRepo,
    InvalidRepoFormat,
    InvalidArguments(Seq<char>, i32),
}

impl View for ConfigError {
    type V = ConfigErrorView;

    open spec fn view(&self) -> ConfigErrorView {
        match self {
            ConfigError::MissingAwsProfile => ConfigErrorView::MissingAwsProfile,
            ConfigError::MissingRegion => ConfigErrorView::MissingRegion,
            ConfigError::MissingGithubRepo => ConfigErrorView::MissingGithubRepo,
            ConfigError::InvalidRepoFormat => ConfigErrorView::InvalidRepoFormat,
            ConfigError::InvalidArguments(s, c) => ConfigErrorView::InvalidArguments(s@, *c),
        }
    }
}

/// The text shown for a configuration error.
pub open spec fn error_message(e: ConfigErrorView) -> Seq<char> {
    match e {
        ConfigErrorView::MissingAwsProfile => "aws_profile: not provided via --aws-profile or config.toml"@,
        ConfigErrorView::MissingRegion => "region: not provided via --region or config.toml"@,
        ConfigErrorView::MissingGithubRepo => "github_repo: not provided via --github-repo or config.toml"@,
        ConfigErrorView::InvalidRepoFormat => "github-repo must be in owner/repo format"@,
        ConfigErrorView::InvalidArguments(m, _) => m,
    }
}

impl ConfigError {
    /// The text shown for this error (see [`error_message`]).
    pub fn message(&self) -> (r: String)
        ensures
            r@ == error_message(self@),
    {
        match self {
            ConfigError::MissingAwsProfile => owned("aws_profile: not provided via --aws-profile or config.toml"),
            ConfigError::MissingRegion => owned("region: not provided via --region or config.toml"),
            ConfigError::MissingGithubRepo => owned("github_repo: not provided via --github-repo or config.toml"),
            ConfigError::InvalidRepoFormat => owned("github-repo must be in owner/repo format"),
            ConfigError::InvalidArguments(m, _) => m.clone(),
        }
    }
}

/// The view of a result whose values and errors have views.
pub open spec fn cli_result_view(r: Result<CliArgs, ConfigError>) -> Result<CliArgsView, ConfigErrorView> {
    match r {
        Ok(c) => Ok(c@),
        Err(e) => Err(e@),
    }
}

/// The view of a configuration result.
pub open spec fn config_result_view(r: Result<Config, ConfigError>) -> Result<ConfigView, ConfigErrorView> {
    match r {
        Ok(c) => Ok(c@),
        Err(e) => Err(e@),
    }
}

/// The first of two optional values that is present.
pub open spec fn first_present<T>(a: Option<T>, b: Option<T>) -> Option<T> {
    match a {
        Some(x) => Some(x),
        None => b,
    }
}

/// The configuration formed from command-line options and the
/// configuration file: options win over the file; profile, region and
/// repository are required, and the repository must hold a `/`.
pub open spec fn merge_spec(cli: CliArgsView, file: FileConfigView) -> Result<ConfigView, ConfigErrorView> {
    match first_present(cli.aws_profile, file.aws_profile) {
        None => Err(ConfigErrorView::MissingAwsProfile),
        Some(aws_profile) => match first_present(cli.region, file.region) {
            None => Err(ConfigErrorView::MissingRegion),
            Some(region) => match first_present(cli.github_repo, file.github_repo) {
                None => Err(ConfigErrorView::MissingGithubRepo),
                Some(github_repo) => if !has_char(github_repo, '/') {
                    Err(ConfigErrorView::InvalidRepoFormat)
                } else {
                    Ok(
                        ConfigView {
                            aws_profile,
                            region,
                            github_repo,
                            branch: first_present(cli.branch, file.branch),
                            review_workflows: match file.review {
                                Some(v) => v,
                                None => Seq::empty(),
                            },
                        },
                    )
                },
            },
        },
    }
}

/// What `clap` makes of a command line whose first token is the program
/// name, for a command `cibars` with the long options `--aws-profile`,
/// `--region`, `--github-repo` and `--branch`, each taking one value: the
/// options given, or the text of clap's error with its exit status.
pub uninterp spec fn spec_clap_parse(args: Seq<Seq<char>>) -> Result<CliArgsView, (Seq<char>, i32)>;

/// The characters of each string slice.
pub open spec fn args_view(args: Seq<&str>) -> Seq<Seq<char>> {
    args.map_values(|s: &str| s@)
}

/// `clap::Command::try_get_matches_from` on the command described at
/// [`spec_clap_parse`], each option read back as a string, an error
/// rendered as text beside `Error::exit_code`.  The claim is only that the result is a function of
/// the arguments, named [`spec_clap_parse`]; clap's parsing is not written
/// out.
#[verifier::external_body]
fn clap_parse(args: &[&str]) -> (r: Result<CliArgs, (String, i32)>)
    ensures
        match r {
            Ok(c) => spec_clap_parse(args_view(args@)) == Ok::<CliArgsView, (Seq<char>, i32)>(c@),
            Err(e) => spec_clap_parse(args_view(args@)) == Err::<CliArgsView, (Seq<char>, i32)>((e.0@, e.1)),
        },
{
    let arg = |id: &'static str, value: &'static str, help: &'static str| clap::Arg::new(id).long(id).value_name(value).help(help);
    let m = clap::Command::new("cibars").about("CI build status bars").args([
        arg("aws-profile", "AWS_PROFILE", "AWS profile name"),
        arg("region", "REGION", "AWS region"),
        arg("github-repo", "GITHUB_REPO", "GitHub repository (owner/repo)"),
        arg("branch", "BRANCH", "Git branch to filter GitHub Actions runs (e.g. master, main)"),
    ]).try_get_matches_from(args).map_err(|e| (e.to_string(), e.exit_code()))?;
    let get = |id: &str| m.get_one::<String>(id).cloned();
    Ok(CliArgs { aws_profile: get("aws-profile"), region: get("region"), github_repo: get("github-repo"), branch: get("branch") })
}

/// The options of a command line, or the error it is refused with.
pub open spec fn parse_args_spec(args: Seq<Seq<char>>) -> Result<CliArgsView, ConfigErrorView> {
    match spec_clap_parse(args) {
        Ok(c) => Ok(c),
        Err(e) => Err(ConfigErrorView::InvalidArguments(e.0, e.1)),
    }
}

impl CliArgs {
    /// Parses a command line whose first token is the program name.
    pub fn try_parse_from(args: &[&str]) -> (r: Result<CliArgs, ConfigError>)
        ensures
            cli_result_view(r) == parse_args_spec(args_view(args@)),
    {
        match clap_parse(args) {
            Ok(c) => Ok(c),
            Err(e) => Err(ConfigError::InvalidArguments(e.0, e.1)),
        }
    }
}

fn first_present_string(a: Option<String>, b: Option<String>) -> (r: Option<String>)
    ensures
        opt_view(r) == first_present(opt_view(a), opt_view(b)),
{
    match a {
        Some(x) => Some(x),
        None => b,
    }
}

impl Config {
    /// Forms the configuration from command-line options and the
    /// configuration file.
    pub fn merge_sources(cli: CliArgs, file: FileConfig) -> (r: Result<Config, ConfigError>)
        ensures
            config_result_view(r) == merge_spec(cli@, file@),
    {
        let ghost cv = cli@;
        let ghost fv = file@;
        let aws_profile = match first_present_string(cli.aws_profile, file.aws_profile) {
            Some(v) => v,
            None => {
                return Err(ConfigError::MissingAwsProfile);
            },
        };
        let region = match first_present_string(cli.region, file.region) {
            Some(v) => v,
            None => {
                return Err(ConfigError::MissingRegion);
            },
        };
        let github_repo = match first_present_string(cli.github_repo, file.github_repo) {
            Some(v) => v,
            None => {
                return Err(ConfigError::MissingGithubRepo);
            },
        };
        if !str_has_char(github_repo.as_str(), '/') {
            return Err(ConfigError::InvalidRepoFormat);
        }
        let branch = first_present_string(cli.branch, file.branch);
        let review_workflows = match file.workflow_categories {
            Some(c) => match c.review {
                Some(v) => v,
                None => Vec::new(),
            },
            None => Vec::new(),
        };
        assert(review_workflows@.len() == 0 ==> strs_view(review_workflows@) =~= Seq::<Seq<char>>::empty());
        Ok(Config { aws_profile, region, github_repo, branch, review_workflows })
    }

    /// Parses the command line `args` and merges it with `file`.
    pub fn merge(args: &[&str], file: FileConfig) -> (r: Result<Config, ConfigError>)
        ensures
            match parse_args_spec(args_view(args@)) {
                Ok(cli) => config_result_view(r) == merge_spec(cli, file@),
                Err(e) => config_result_view(r) == Err::<ConfigView, ConfigErrorView>(e),
            },
    {
        let cli = match CliArgs::try_parse_from(args) {
            Ok(c) => c,
            Err(e) => {
                return Err(e);
            },
        };
        Self::merge_sources(cli, file)
    }

    /// Parses the command line `args`, with no configuration file.
    pub fn try_from_args(args: &[&str]) -> (r: Result<Config, ConfigError>)
        ensures
            match parse_args_spec(args_view(args@)) {
                Ok(cli) => config_result_view(r) == merge_spec(
                    cli,
                    FileConfigView {
                        aws_profile: None,
                        region: None,
                        github_repo: None,
                        branch: None,
                        review: None,
                    },
                ),
                Err(e) => config_result_view(r) == Err::<ConfigView, ConfigErrorView>(e),
            },
    {
        Self::merge(args, FileConfig::default())
    }

    /// Classifies a workflow as CI or Review.  Names listed as review
    /// workflows in the configuration file win; otherwise a workflow whose
    /// lower-cased name mentions a review, dependabot, a labeler or stale
    /// items is a Review workflow.
    pub fn classify_workflow(&self, name: &str) -> (c: WorkflowCategory)
        ensures
            c == classify_spec(self@.review_workflows, name@, spec_lowercase(name@)),
    {
        let lower = to_lowercase(name);
        classify_lowercased(&self.review_workflows, name, lower.as_str())
    }
}

/// The lower-cased name mentions one of the review keywords.
pub open spec fn mentions_review_keyword(lower: Seq<char>) -> bool {
    contains_seq(lower, "review"@) || contains_seq(lower, "dependabot"@) || contains_seq(
        lower,
        "labeler"@,
    ) || contains_seq(lower, "stale"@)
}

/// The category of workflow `name` (lower-cased as `lower`) given the
/// configured review workflows.
pub open spec fn classify_spec(review: Seq<Seq<char>>, name: Seq<char>, lower: Seq<char>) -> WorkflowCategory {
    if review.contains(name) || mentions_review_keyword(lower) {
        WorkflowCategory::Review
    } else {
        WorkflowCategory::CI
    }
}

/// Classifies workflow `name`, whose lower-cased form is `lower`.
pub fn classify_lowercased(review_workflows: &Vec<String>, name: &str, lower: &str) -> (c: WorkflowCategory)
    ensures
        c == classify_spec(strs_view(review_workflows@), name@, lower@),
{
    let ghost rv = strs_view(review_workflows@);
    let mut i: usize = 0;
    while i < review_workflows.len()
        invariant
            rv == strs_view(review_workflows@),
            i <= review_workflows.len(),
            forall|k: int| 0 <= k < i ==> rv[k] != name@,
        decreases review_workflows.len() - i,
    {
        if str_eq(review_workflows[i].as_str(), name) {
            assert(rv[i as int] == name@);
            return WorkflowCategory::Review;
        }
        i = i + 1;
    }
    if str_contains(lower, "review") || str_contains(lower, "dependabot") || str_contains(
        lower,
        "labeler",
    ) || str_contains(lower, "stale") {
        return WorkflowCategory::Review;
    }
    WorkflowCategory::CI
}

/// Where a pre-push hook is installed.
#[derive(Debug, Clone, Copy, PartialEq, Eq, Structural)]
pub enum HookLocation {
    /// In .git/hooks/ (no core.hooksPath override).
    Local,
    /// In the global hooks directory (core.hooksPath).
    Global,
}

/// Where to install the hook.
#[derive(Debug, Clone, Copy, PartialEq, Eq, Structural)]
pub enum HookTarget {
    /// In .git/hooks/ (repo-local).
    Local,
    /// In the global hooks directory, always with delegation.
    Global,
}

/// The state of the pre-push hook.
#[derive(Debug, Clone, Copy, PartialEq, Eq, Structural)]
pub enum HookStatus {
    /// The snippet is in the effective hooks directory: it will run.
    Installed(HookLocation),
    /// The snippet is in .git/hooks/ but core.hooksPath overrides it.
    Shadowed,
    /// The effective hooks directory has a pre-push hook without the snippet.
    Incomplete,
    /// No pre-push hook in the effective hooks directory.
    Missing,
    /// Not a git repository.
    NoGitDir,
}

/// The install that a key asks for: `p` installs the hook in the
/// repository when it is missing or incomplete; `g`, when core.hooksPath
/// points elsewhere, installs it in the global hooks directory (with
/// delegation) when it is missing, incomplete or shadowed.  Any other key
/// or state asks for nothing.
pub open spec fn hook_key_spec(status: HookStatus, has_global_hooks_path: bool, key: char) -> Option<HookTarget> {
    if key == 'p' && (status == HookStatus::Missing || status == HookStatus::Incomplete) {
        Some(HookTarget::Local)
    } else if key == 'g' && has_global_hooks_path && (status == HookStatus::Missing || status
        == HookStatus::Incomplete || status == HookStatus::Shadowed) {
        Some(HookTarget::Global)
    } else {
        None
    }
}

/// The install that `key` asks for (see [`hook_key_spec`]).
pub fn hook_install_target(status: HookStatus, has_global_hooks_path: bool, key: char) -> (r: Option<HookTarget>)
    ensures
        r == hook_key_spec(status, has_global_hooks_path, key),
{
    let wants = match status {
        HookStatus::Missing | HookStatus::Incomplete => true,
        _ => false,
    };
    let shadowed = match status {
        HookStatus::Shadowed => true,
        _ => false,
    };
    if key == 'p' && wants {
        Some(HookTarget::Local)
    } else if key == 'g' && has_global_hooks_path && (wants || shadowed) {
        Some(HookTarget::Global)
    } else {
        None
    }
}

/// The hook snippet: sends SIGUSR1 to the instance watching the repository,
/// whose PID file is derived from the repository's top level.
pub const HOOK_SNIPPET: &'static str = "\n# cibars: boost polling on push\n_cibars_pid=\"$HOME/.cibars/pids/$(git rev-parse --show-toplevel | tr '/' '_').pid\"\nkill -USR1 $(cat \"$_cibars_pid\" 2>/dev/null) 2>/dev/null || true\n";

/// The delegation block: runs the repository's own pre-push hook, if any.
pub const DELEGATION_SNIPPET: &'static str = "\n# --- cibars: delegate to repo-local hook ---\n_local=\"$(git rev-parse --git-dir)/hooks/pre-push\"\nif [ -x \"$_local\" ]; then\n    \"$_local\" \"$@\" || exit $?\nfi\n";

/// The first line of a new hook file.
pub const SHEBANG: &'static str = "#!/bin/sh";

/// Hook contents that hold the boost snippet (the current one or the
/// older `pkill -USR1 cibars`).
pub open spec fn is_cibars_hook(contents: Seq<char>) -> bool {
    contains_seq(contents, "USR1"@) && contains_seq(contents, "cibars"@)
}

/// Hook contents that delegate to the repository's own hook.
pub open spec fn is_delegating(contents: Seq<char>) -> bool {
    contains_seq(contents, "rev-parse --git-dir"@) && contains_seq(contents, "hooks/pre-push"@)
        && contains_seq(contents, "$_local"@)
}

/// The contents hold the boost snippet.
pub fn has_cibars_hook(contents: &str) -> (r: bool)
    ensures
        r == is_cibars_hook(contents@),
{
    str_contains(contents, "USR1") && str_contains(contents, "cibars")
}

/// The contents delegate to the repository's own hook.
pub fn has_delegation(contents: &str) -> (r: bool)
    ensures
        r == is_delegating(contents@),
{
    str_contains(contents, "rev-parse --git-dir") && str_contains(contents, "hooks/pre-push")
        && str_contains(contents, "$_local")
}

/// The hook status, from what the repository holds: whether `.git` is a
/// directory, whether core.hooksPath points elsewhere, and the contents of
/// the effective and the repo-local pre-push hooks (None when unreadable).
pub open spec fn hook_status_spec(
    git_dir: bool,
    is_global: bool,
    effective: Option<Seq<char>>,
    local: Option<Seq<char>>,
) -> HookStatus {
    if !git_dir {
        HookStatus::NoGitDir
    } else {
        match effective {
            Some(c) => if is_cibars_hook(c) {
                HookStatus::Installed(
                    if is_global {
                        HookLocation::Global
                    } else {
                        HookLocation::Local
                    },
                )
            } else if is_global && is_delegating(c) && (local matches Some(l) && is_cibars_hook(l)) {
                HookStatus::Installed(HookLocation::Global)
            } else {
                HookStatus::Incomplete
            },
            None => if is_global && (local matches Some(l) && is_cibars_hook(l)) {
                HookStatus::Shadowed
            } else {
                HookStatus::Missing
            },
        }
    }
}

/// Decides the hook status from what the repository holds.
pub fn hook_status_from(
    git_dir: bool,
    is_global: bool,
    effective_hook: Option<&str>,
    local_hook: Option<&str>,
) -> (r: HookStatus)
    ensures
        r == hook_status_spec(
            git_dir,
            is_global,
            match effective_hook {
                Some(s) => Some(s@),
                None => None,
            },
            match local_hook {
                Some(s) => Some(s@),
                None => None,
            },
        ),
{
    if !git_dir {
        return HookStatus::NoGitDir;
    }
    match effective_hook {
        Some(contents) => {
            if has_cibars_hook(contents) {
                let location = if is_global {
                    HookLocation::Global
                } else {
                    HookLocation::Local
                };
                return HookStatus::Installed(location);
            }
            if is_global && has_delegation(contents) {
                if let Some(local_contents) = local_hook {
                    if has_cibars_hook(local_contents) {
                        return HookStatus::Installed(HookLocation::Global);
                    }
                }
            }
            HookStatus::Incomplete
        },
        None => {
            if is_global {
                if let Some(contents) = local_hook {
                    if has_cibars_hook(contents) {
                        return HookStatus::Shadowed;
                    }
                }
            }
            HookStatus::Missing
        },
    }
}

/// `existing`, or the shebang line when the file is empty.
pub open spec fn base_of(existing: Seq<char>) -> Seq<char> {
    if existing.len() == 0 {
        SHEBANG@
    } else {
        existing
    }
}

/// What installing the hook in a file holding `existing` writes: nothing
/// when the snippet is already there; otherwise the file (or a shebang),
/// the delegation block for a global target that does not delegate yet,
/// and the snippet.
pub open spec fn hook_content_spec(existing: Seq<char>, target: HookTarget) -> Option<Seq<char>> {
    if is_cibars_hook(existing) {
        None
    } else {
        let delegation = if target == HookTarget::Global && !is_delegating(existing) {
            DELEGATION_SNIPPET@
        } else {
            Seq::empty()
        };
        Some(base_of(existing) + delegation + HOOK_SNIPPET@)
    }
}

fn base_content(existing: &str) -> (r: String)
    ensures
        r@ == base_of(existing@),
{
    if existing.is_empty() {
        owned(SHEBANG)
    } else {
        owned(existing)
    }
}

/// The new contents of a hook file holding `existing` when the hook is
/// installed for `target` (None: nothing to write).  What it writes holds
/// the boost snippet, so installing again writes nothing.
pub fn hook_install_content(existing: &str, target: HookTarget) -> (r: Option<String>)
    ensures
        opt_view(r) == hook_content_spec(existing@, target),
        r matches Some(c) ==> is_cibars_hook(c@) && hook_content_spec(c@, target) is None,
{
    proof {
        lemma_install_is_idempotent(existing@, target);
    }
    if has_cibars_hook(existing) {
        return None;
    }
    let base = base_content(existing);
    let with_delegation = if target == HookTarget::Global && !has_delegation(existing) {
        concat2(base.as_str(), DELEGATION_SNIPPET)
    } else {
        base
    };
    let ghost wd = with_delegation@;
    let r = concat2(with_delegation.as_str(), HOOK_SNIPPET);
    proof {
        if !(target == HookTarget::Global && !is_delegating(existing@)) {
            assert(base_of(existing@) + Seq::<char>::empty() =~= base_of(existing@));
        }
    }
    Some(r)
}

/// What making a global hook holding `existing` delegate writes: nothing
/// when it already delegates, otherwise the file (or a shebang) followed
/// by the delegation block.
pub open spec fn delegation_content_spec(existing: Seq<char>) -> Option<Seq<char>> {
    if is_delegating(existing) {
        None
    } else {
        Some(base_of(existing) + DELEGATION_SNIPPET@)
    }
}

/// The new contents of the global hook when a local install needs the
/// global hook to delegate (None: nothing to write).  What it writes
/// delegates, so asking again writes nothing.
pub fn global_delegation_content(existing: &str) -> (r: Option<String>)
    ensures
        opt_view(r) == delegation_content_spec(existing@),
        r matches Some(c) ==> is_delegating(c@) && delegation_content_spec(c@) is None,
{
    proof {
        lemma_install_is_idempotent(existing@, HookTarget::Local);
    }
    if has_delegation(existing) {
        return None;
    }
    let base = base_content(existing);
    Some(concat2(base.as_str(), DELEGATION_SNIPPET))
}

/// The repair of a global hook that exists beside a local one but does not
/// delegate: the delegation block appended (None: it already delegates).
pub fn delegation_fix_content(existing: &str) -> (r: Option<String>)
    ensures
        opt_view(r) == if is_delegating(existing@) {
            None
        } else {
            Some(existing@ + DELEGATION_SNIPPET@)
        },
{
    if has_delegation(existing) {
        return None;
    }
    Some(concat2(existing, DELEGATION_SNIPPET))
}

proof fn lemma_snippets_recognised()
    ensures
        is_cibars_hook(HOOK_SNIPPET@),
        is_delegating(DELEGATION_SNIPPET@),
{
    reveal_strlit("\n# cibars: boost polling on push\n_cibars_pid=\"$HOME/.cibars/pids/$(git rev-parse --show-toplevel | tr '/' '_').pid\"\nkill -USR1 $(cat \"$_cibars_pid\" 2>/dev/null) 2>/dev/null || true\n");
    reveal_strlit("\n# --- cibars: delegate to repo-local hook ---\n_local=\"$(git rev-parse --git-dir)/hooks/pre-push\"\nif [ -x \"$_local\" ]; then\n    \"$_local\" \"$@\" || exit $?\nfi\n");
    reveal_strlit("USR1");
    reveal_strlit("cibars");
    reveal_strlit("rev-parse --git-dir");
    reveal_strlit("hooks/pre-push");
    reveal_strlit("$_local");
    let h = HOOK_SNIPPET@;
    let d = DELEGATION_SNIPPET@;
    assert(h.subrange(122, 126) =~= "USR1"@);
    assert(occurs_at(h, "USR1"@, 122));
    assert(h.subrange(3, 9) =~= "cibars"@);
    assert(occurs_at(h, "cibars"@, 3));
    assert(d.subrange(61, 80) =~= "rev-parse --git-dir"@);
    assert(occurs_at(d, "rev-parse --git-dir"@, 61));
    assert(d.subrange(82, 96) =~= "hooks/pre-push"@);
    assert(occurs_at(d, "hooks/pre-push"@, 82));
    assert(d.subrange(107, 114) =~= "$_local"@);
    assert(occurs_at(d, "$_local"@, 107));
}

/// Installing the hook is idempotent: whatever one install writes already
/// holds the boost snippet, so installing again for the same target writes
/// nothing, and a global hook that was written delegates to the
/// repository's own hook.  Likewise, once the global hook has been made to
/// delegate, making it delegate again writes nothing.
pub proof fn lemma_install_is_idempotent(existing: Seq<char>, target: HookTarget)
    ensures
        hook_content_spec(existing, target) matches Some(c) ==> {
            &&& is_cibars_hook(c)
            &&& hook_content_spec(c, target) is None
            &&& target == HookTarget::Global ==> is_delegating(c)
        },
        delegation_content_spec(existing) matches Some(d) ==> {
            &&& is_delegating(d)
            &&& delegation_content_spec(d) is None
        },
{
    lemma_snippets_recognised();
    let e = Seq::<char>::empty();
    if let Some(c) = hook_content_spec(existing, target) {
        let base = base_of(existing);
        let delegation = if target == HookTarget::Global && !is_delegating(existing) {
            DELEGATION_SNIPPET@
        } else {
            e
        };
        let h = HOOK_SNIPPET@;
        assert(c == (base + delegation) + h + e);
        lemma_contains_in_concat(base + delegation, h, e, "USR1"@);
        lemma_contains_in_concat(base + delegation, h, e, "cibars"@);
        if target == HookTarget::Global {
            if is_delegating(existing) {
                assert(existing.len() != 0) by {
                    reveal_strlit("$_local");
                    let i = choose|i: int| occurs_at(existing, "$_local"@, i);
                }
                assert(c == e + existing + (delegation + h));
                lemma_contains_in_concat(e, existing, delegation + h, "rev-parse --git-dir"@);
                lemma_contains_in_concat(e, existing, delegation + h, "hooks/pre-push"@);
                lemma_contains_in_concat(e, existing, delegation + h, "$_local"@);
            } else {
                assert(c == base + DELEGATION_SNIPPET@ + h);
                lemma_contains_in_concat(base, DELEGATION_SNIPPET@, h, "rev-parse --git-dir"@);
                lemma_contains_in_concat(base, DELEGATION_SNIPPET@, h, "hooks/pre-push"@);
                lemma_contains_in_concat(base, DELEGATION_SNIPPET@, h, "$_local"@);
            }
        }
    }
    if let Some(d) = delegation_content_spec(existing) {
        let base = base_of(existing);
        assert(d == base + DELEGATION_SNIPPET@ + e);
        lemma_contains_in_concat(base, DELEGATION_SNIPPET@, e, "rev-parse --git-dir"@);
        lemma_contains_in_concat(base, DELEGATION_SNIPPET@, e, "hooks/pre-push"@);
        lemma_contains_in_concat(base, DELEGATION_SNIPPET@, e, "$_local"@);
    }
}

/// What installing the hook for `target` writes, given the hook file's
/// contents `existing` and, for a local install whose global hooks
/// directory is elsewhere, the global hook's contents `global`: the new
/// hook file (None: it already holds the snippet, and nothing is written),
/// then the new global hook (None: nothing to write there).
pub open spec fn install_plan_spec(existing: Seq<char>, global: Option<Seq<char>>, target: HookTarget) -> (
    Option<Seq<char>>,
    Option<Seq<char>>,
) {
    match hook_content_spec(existing, target) {
        None => (None, None),
        Some(c) => (
            Some(c),
            match global {
                Some(g) => if target == HookTarget::Local {
                    delegation_content_spec(g)
                } else {
                    None
                },
                None => None,
            },
        ),
    }
}

/// A file's contents after a write of `w` (none: left as it was).
pub open spec fn after_write(before: Seq<char>, w: Option<Seq<char>>) -> Seq<char> {
    match w {
        Some(c) => c,
        None => before,
    }
}

/// Decides what installing the hook writes (see [`install_plan_spec`]).
pub fn install_plan(existing: &str, global: Option<&str>, target: HookTarget) -> (r: (Option<String>, Option<String>))
    ensures
        (opt_view(r.0), opt_view(r.1)) == install_plan_spec(
            existing@,
            match global {
                Some(g) => Some(g@),
                None => None,
            },
            target,
        ),
{
    match hook_install_content(existing, target) {
        None => (None, None),
        Some(c) => {
            let g = match global {
                Some(g) => if target == HookTarget::Local {
                    global_delegation_content(g)
                } else {
                    None
                },
                None => None,
            };
            (Some(c), g)
        },
    }
}

/// Installing the hook twice changes nothing: after one install has
/// written its files, a second install for the same target writes neither
/// the hook file nor the global hook.
pub proof fn lemma_install_twice_writes_nothing(existing: Seq<char>, global: Option<Seq<char>>, target: HookTarget)
    ensures
        ({
            let first = install_plan_spec(existing, global, target);
            let global_after = match global {
                Some(g) => Some(after_write(g, first.1)),
                None => None,
            };
            install_plan_spec(after_write(existing, first.0), global_after, target) == (
                None::<Seq<char>>,
                None::<Seq<char>>,
            )
        }),
{
    lemma_install_is_idempotent(existing, target);
}

/// A path with every `/` replaced by `_`.
pub open spec fn sanitize_path(p: Seq<char>) -> Seq<char> {
    p.map_values(|c: char| if c == '/' { '_' } else { c })
}

/// The name of the PID file of the instance that watches directory `cwd`:
/// the path with `/` replaced by `_`, then `.pid`.
pub fn pid_file_name(cwd: &str) -> (r: String)
    ensures
        r@ == sanitize_path(cwd@) + ".pid"@,
{
    let v = chars_of(cwd);
    let mut out: Vec<char> = Vec::new();
    let mut i: usize = 0;
    while i < v.len()
        invariant
            i <= v.len(),
            out@ == sanitize_path(v@.take(i as int)),
        decreases v.len() - i,
    {
        let c = if v[i] == '/' {
            '_'
        } else {
            v[i]
        };
        out.push(c);
        i = i + 1;
        assert(out@ =~= sanitize_path(v@.take(i as int)));
    }
    assert(v@.take(i as int) =~= v@);
    let s = string_from_chars(&out);
    concat2(s.as_str(), ".pid")
}

} // verus!
